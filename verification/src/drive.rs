//! The P2P drive: a host shares a set of files with connected guests, who
//! ask to download them or to upload their own; the host approves or denies.
//! The room's state and what each guest message and host command does to it.

use vstd::prelude::*;
use crate::framing::{frame, frame_spec};
use crate::manifest::{keys_unique, lemma_filter_keeps_unique};

verus! {

broadcast use vstd::seq_lib::group_filter_ensures;

/// The ALPN protocol name of the drive.
pub const ALPN_P2P_DRIVE: &'static str = "send2me-drive/1";

#[derive(Debug, Clone)]
pub struct DriveFileMeta {
    pub id: String,
    pub name: String,
    pub size: u64,
    pub is_folder: bool,
    pub added_at: i64,
}

#[derive(Debug, Clone)]
pub struct FileTransferHeader {
    pub request_id: String,
    pub file_size: u64,
    pub file_name: String,
}

#[derive(Debug, Clone)]
pub enum DriveMessage {
    ListRequest,
    ListResponse { files: Vec<DriveFileMeta> },
    DownloadRequest { request_id: String, file_id: String },
    UploadRequest { request_id: String, file_name: String, file_size: u64 },
    RequestDecision { request_id: String, approved: bool },
    ChatMessage { sender_id: String, sender_name: String, content: String, timestamp: i64 },
    Status { status: String },
}

#[derive(Debug, Clone)]
pub enum DriveEvent {
    GuestConnected { node_id: String, name: String },
    GuestDisconnected { node_id: String },
    RequestReceived {
        request_id: String,
        request_type: String,
        guest_node_id: String,
        file_name: String,
        file_size: u64,
        target_file_id: Option<String>,
    },
    ChatMessageReceived { id: String, sender_name: String, content: String, is_host: bool },
    GuestFilesUpdated { files: Vec<DriveFileMeta> },
    GuestDownloadDecision { request_id: String, approved: bool },
    TransferCompleted { file_name: String, is_upload: bool },
}

#[derive(Debug, Clone)]
pub struct VirtualFile {
    pub meta: DriveFileMeta,
    pub absolute_path: String,
}

#[derive(Debug, Clone)]
pub struct DriveRequest {
    pub id: String,
    pub request_type: String,
    pub guest_node_id: String,
    pub file_name: String,
    pub file_size: u64,
    pub target_file_id: Option<String>,
    pub timestamp: i64,
}

#[derive(Debug, Clone)]
pub enum DriveCommand {
    ApproveRequest(String),
    DenyRequest(String),
    RequestDownload(String),
    RequestUpload(String),
    Kick,
    RefreshFiles,
}

/// Writes and reads the framing of drive messages and file headers.
pub struct DriveEngine;

impl DriveEngine {
    /// A serialized header or message as sent: its length (big-endian `u32`)
    /// and then the bytes.
    pub fn frame_header(serialized: &[u8]) -> (out: Vec<u8>)
        ensures
            out@ == frame_spec(serialized@),
    {
        frame(serialized)
    }
}

impl DriveFileMeta {
    pub fn duplicate(&self) -> (r: Self)
        ensures
            r.id@ == self.id@,
            r.name@ == self.name@,
            r.size == self.size,
            r.is_folder == self.is_folder,
            r.added_at == self.added_at,
    {
        DriveFileMeta {
            id: self.id.clone(),
            name: self.name.clone(),
            size: self.size,
            is_folder: self.is_folder,
            added_at: self.added_at,
        }
    }
}

pub open spec fn file_id_of() -> spec_fn(VirtualFile) -> Seq<char> {
    |f: VirtualFile| f.meta.id@
}

pub open spec fn request_id_of() -> spec_fn(DriveRequest) -> Seq<char> {
    |r: DriveRequest| r.id@
}

pub open spec fn guest_id_of() -> spec_fn((String, String)) -> Seq<char> {
    |g: (String, String)| g.0@
}

pub open spec fn other_file_id(id: Seq<char>) -> spec_fn(VirtualFile) -> bool {
    |f: VirtualFile| f.meta.id@ != id
}

pub open spec fn other_request(id: Seq<char>) -> spec_fn(DriveRequest) -> bool {
    |r: DriveRequest| r.id@ != id
}

pub open spec fn other_guest(id: Seq<char>) -> spec_fn((String, String)) -> bool {
    |g: (String, String)| g.0@ != id
}

pub open spec fn has_file(files: Seq<VirtualFile>, id: Seq<char>) -> bool {
    exists|k: int| 0 <= k < files.len() && (#[trigger] files[k]).meta.id@ == id
}

pub open spec fn file_with(files: Seq<VirtualFile>, id: Seq<char>) -> VirtualFile {
    let k = choose|k: int| 0 <= k < files.len() && (#[trigger] files[k]).meta.id@ == id;
    files[k]
}

pub open spec fn has_request(reqs: Seq<DriveRequest>, id: Seq<char>) -> bool {
    exists|k: int| 0 <= k < reqs.len() && (#[trigger] reqs[k]).id@ == id
}

pub open spec fn request_with(reqs: Seq<DriveRequest>, id: Seq<char>) -> DriveRequest {
    let k = choose|k: int| 0 <= k < reqs.len() && (#[trigger] reqs[k]).id@ == id;
    reqs[k]
}

/// Two metadata records that agree on every field.
pub open spec fn same_meta(a: DriveFileMeta, b: DriveFileMeta) -> bool {
    a.id@ == b.id@ && a.name@ == b.name@ && a.size == b.size && a.is_folder == b.is_folder
        && a.added_at == b.added_at
}

/// `list` is the metadata of `files`, in the same order.
pub open spec fn lists_files(list: Seq<DriveFileMeta>, files: Seq<VirtualFile>) -> bool {
    list.len() == files.len() && forall|k: int| 0 <= k < list.len() ==> same_meta(#[trigger] list[k], files[k].meta)
}

/// What a host does in reply to a guest message or a host command.
pub struct HostReaction {
    /// A message to send back to the guest.
    pub reply: Option<DriveMessage>,
    /// An event for the user interface.
    pub event: Option<DriveEvent>,
    /// A file to push to the guest: request id, local path and file name.
    pub push_file: Option<(String, String, String)>,
    /// Whether the session with the guest ends.
    pub end_session: bool,
}

/// The host's room: whether it is open, the shared files (one per id), the
/// guests' requests awaiting a decision (one per id), and the connected
/// guests (one per address) with their names.
pub struct DriveRoom {
    pub is_online: bool,
    pub files: Vec<VirtualFile>,
    pub pending_requests: Vec<DriveRequest>,
    pub guests: Vec<(String, String)>,
}

impl DriveRoom {
    pub open spec fn wf(&self) -> bool {
        &&& keys_unique(self.files@, file_id_of())
        &&& keys_unique(self.pending_requests@, request_id_of())
        &&& keys_unique(self.guests@, guest_id_of())
    }

    /// A closed room with nothing shared.
    pub fn new() -> (r: Self)
        ensures
            r.wf(),
            !r.is_online,
            r.files@.len() == 0,
            r.pending_requests@.len() == 0,
            r.guests@.len() == 0,
    {
        DriveRoom { is_online: false, files: Vec::new(), pending_requests: Vec::new(), guests: Vec::new() }
    }

    pub fn start_room(&mut self)
        ensures
            final(self).is_online,
            final(self).files@ == old(self).files@,
            final(self).pending_requests@ == old(self).pending_requests@,
            final(self).guests@ == old(self).guests@,
    {
        self.is_online = true;
    }

    /// Takes the room offline: every guest is kicked (their addresses are
    /// returned), guests and pending requests are dropped, files stay shared.
    pub fn close_room(&mut self) -> (kicked: Vec<String>)
        requires
            old(self).wf(),
        ensures
            final(self).wf(),
            !final(self).is_online,
            final(self).files@ == old(self).files@,
            final(self).pending_requests@.len() == 0,
            final(self).guests@.len() == 0,
            kicked@.len() == old(self).guests@.len(),
            forall|k: int| 0 <= k < kicked@.len() ==> (#[trigger] kicked@[k])@ == old(self).guests@[k].0@,
    {
        let mut kicked: Vec<String> = Vec::new();
        let mut i: usize = 0;
        while i < self.guests.len()
            invariant
                i <= self.guests@.len(),
                kicked@.len() == i,
                forall|k: int| 0 <= k < i ==> (#[trigger] kicked@[k])@ == self.guests@[k].0@,
            decreases self.guests@.len() - i,
        {
            kicked.push(self.guests[i].0.clone());
            i = i + 1;
        }
        self.is_online = false;
        self.guests = Vec::new();
        self.pending_requests = Vec::new();
        kicked
    }

    /// Shares a file, replacing any shared file with its id. Returns how many
    /// guests are told to refresh their list.
    pub fn add_virtual_file(&mut self, file: VirtualFile) -> (notified: usize)
        requires
            old(self).wf(),
        ensures
            final(self).wf(),
            final(self).is_online == old(self).is_online,
            final(self).files@ == old(self).files@.filter(other_file_id(file.meta.id@)).push(file),
            final(self).pending_requests@ == old(self).pending_requests@,
            final(self).guests@ == old(self).guests@,
            notified == old(self).guests@.len(),
    {
        let ghost id = file.meta.id@;
        self.remove_file_entry(&file.meta.id);
        let ghost f = self.files@;
        self.files.push(file);
        proof {
            let g = self.files@;
            assert forall|i: int, j: int|
                0 <= i < g.len() && 0 <= j < g.len() && i != j implies (file_id_of())(#[trigger] g[i])
                != (file_id_of())(#[trigger] g[j]) by {
                if i < f.len() {
                    assert(g[i] == f[i]);
                    assert((other_file_id(id))(f[i]));
                }
                if j < f.len() {
                    assert(g[j] == f[j]);
                    assert((other_file_id(id))(f[j]));
                }
            }
        }
        self.guests.len()
    }

    fn remove_file_entry(&mut self, id: &String)
        requires
            old(self).wf(),
        ensures
            final(self).wf(),
            final(self).is_online == old(self).is_online,
            final(self).files@ == old(self).files@.filter(other_file_id(id@)),
            final(self).pending_requests@ == old(self).pending_requests@,
            final(self).guests@ == old(self).guests@,
    {
        let ghost before = self.files@;
        let ghost keep = other_file_id(id@);
        let mut kept: Vec<VirtualFile> = Vec::new();
        let mut old_files: Vec<VirtualFile> = Vec::new();
        std::mem::swap(&mut old_files, &mut self.files);
        let mut i: usize = 0;
        let n = old_files.len();
        while i < n
            invariant
                n == before.len(),
                i <= n,
                old_files@ == before.skip(i as int),
                keep == other_file_id(id@),
                kept@ == before.take(i as int).filter(keep),
            decreases n - i,
        {
            proof {
                assert(before.take(i + 1) =~= before.take(i as int).push(before[i as int]));
                before.take(i as int).lemma_filter_push(before[i as int], keep);
            }
            let f = old_files.remove(0);
            assert(f == before[i as int]);
            assert(old_files@ =~= before.skip(i + 1));
            if !(f.meta.id == *id) {
                kept.push(f);
            }
            i = i + 1;
        }
        assert(before.take(n as int) =~= before);
        self.files = kept;
        proof {
            lemma_filter_keeps_unique(before, file_id_of(), keep);
        }
    }

    /// Stops sharing the file with `id`. Returns how many guests are told to
    /// refresh their list.
    pub fn remove_virtual_file(&mut self, id: &String) -> (notified: usize)
        requires
            old(self).wf(),
        ensures
            final(self).wf(),
            final(self).is_online == old(self).is_online,
            final(self).files@ == old(self).files@.filter(other_file_id(id@)),
            final(self).pending_requests@ == old(self).pending_requests@,
            final(self).guests@ == old(self).guests@,
            notified == old(self).guests@.len(),
    {
        self.remove_file_entry(id);
        self.guests.len()
    }

    /// Whether a new guest connection is taken: only while the room is open.
    pub fn admits_connection(&self) -> (r: bool)
        ensures
            r == self.is_online,
    {
        self.is_online
    }

    /// A guest at `addr` joined (it is registered as "Guest Device").
    pub fn guest_joined(&mut self, addr: &String) -> (e: DriveEvent)
        requires
            old(self).wf(),
        ensures
            final(self).wf(),
            final(self).is_online == old(self).is_online,
            final(self).files@ == old(self).files@,
            final(self).pending_requests@ == old(self).pending_requests@,
            final(self).guests@.len() == old(self).guests@.filter(other_guest(addr@)).len() + 1,
            final(self).guests@.drop_last() == old(self).guests@.filter(other_guest(addr@)),
            final(self).guests@.last().0@ == addr@,
            final(self).guests@.last().1@ == "Guest Device"@,
            e matches DriveEvent::GuestConnected { node_id, name } && node_id@ == addr@ && name@ == "Guest Device"@,
    {
        self.remove_guest_entry(addr);
        let ghost g0 = self.guests@;
        self.guests.push((addr.clone(), String::from_str("Guest Device")));
        proof {
            let g = self.guests@;
            assert(g[g0.len() as int].0@ == addr@);
            assert(g.drop_last() =~= g0);
            assert forall|i: int, j: int|
                0 <= i < g.len() && 0 <= j < g.len() && i != j implies (guest_id_of())(#[trigger] g[i])
                != (guest_id_of())(#[trigger] g[j]) by {
                if i < g0.len() {
                    assert(g[i] == g0[i]);
                    assert((other_guest(addr@))(g0[i]));
                }
                if j < g0.len() {
                    assert(g[j] == g0[j]);
                    assert((other_guest(addr@))(g0[j]));
                }
            }
        }
        DriveEvent::GuestConnected { node_id: addr.clone(), name: String::from_str("Guest Device") }
    }

    /// The session with the guest at `addr` ended.
    pub fn guest_left(&mut self, addr: &String) -> (e: DriveEvent)
        requires
            old(self).wf(),
        ensures
            final(self).wf(),
            final(self).is_online == old(self).is_online,
            final(self).files@ == old(self).files@,
            final(self).pending_requests@ == old(self).pending_requests@,
            final(self).guests@ == old(self).guests@.filter(other_guest(addr@)),
            e matches DriveEvent::GuestDisconnected { node_id } && node_id@ == addr@,
    {
        self.remove_guest_entry(addr);
        DriveEvent::GuestDisconnected { node_id: addr.clone() }
    }

    fn remove_guest_entry(&mut self, addr: &String)
        requires
            old(self).wf(),
        ensures
            final(self).wf(),
            final(self).is_online == old(self).is_online,
            final(self).files@ == old(self).files@,
            final(self).pending_requests@ == old(self).pending_requests@,
            final(self).guests@ == old(self).guests@.filter(other_guest(addr@)),
    {
        let ghost before = self.guests@;
        let ghost keep = other_guest(addr@);
        let mut kept: Vec<(String, String)> = Vec::new();
        let mut old_guests: Vec<(String, String)> = Vec::new();
        std::mem::swap(&mut old_guests, &mut self.guests);
        let n = old_guests.len();
        let mut i: usize = 0;
        while i < n
            invariant
                n == before.len(),
                i <= n,
                old_guests@ == before.skip(i as int),
                keep == other_guest(addr@),
                kept@ == before.take(i as int).filter(keep),
            decreases n - i,
        {
            proof {
                assert(before.take(i + 1) =~= before.take(i as int).push(before[i as int]));
                before.take(i as int).lemma_filter_push(before[i as int], keep);
            }
            let g = old_guests.remove(0);
            assert(g == before[i as int]);
            assert(old_guests@ =~= before.skip(i + 1));
            if !(g.0 == *addr) {
                kept.push(g);
            }
            i = i + 1;
        }
        assert(before.take(n as int) =~= before);
        self.guests = kept;
        proof {
            lemma_filter_keeps_unique(before, guest_id_of(), keep);
        }
    }

    fn record_request(&mut self, req: DriveRequest)
        requires
            old(self).wf(),
        ensures
            final(self).wf(),
            final(self).is_online == old(self).is_online,
            final(self).files@ == old(self).files@,
            final(self).guests@ == old(self).guests@,
            final(self).pending_requests@ == old(self).pending_requests@.filter(other_request(req.id@)).push(req),
    {
        let ghost before = self.pending_requests@;
        let ghost keep = other_request(req.id@);
        let mut kept: Vec<DriveRequest> = Vec::new();
        let mut old_reqs: Vec<DriveRequest> = Vec::new();
        std::mem::swap(&mut old_reqs, &mut self.pending_requests);
        let n = old_reqs.len();
        let mut i: usize = 0;
        while i < n
            invariant
                n == before.len(),
                i <= n,
                old_reqs@ == before.skip(i as int),
                keep == other_request(req.id@),
                kept@ == before.take(i as int).filter(keep),
            decreases n - i,
        {
            proof {
                assert(before.take(i + 1) =~= before.take(i as int).push(before[i as int]));
                before.take(i as int).lemma_filter_push(before[i as int], keep);
            }
            let r = old_reqs.remove(0);
            assert(r == before[i as int]);
            assert(old_reqs@ =~= before.skip(i + 1));
            if !(r.id == req.id) {
                kept.push(r);
            }
            i = i + 1;
        }
        assert(before.take(n as int) =~= before);
        let ghost f = kept@;
        let ghost rid = req.id@;
        kept.push(req);
        self.pending_requests = kept;
        proof {
            lemma_filter_keeps_unique(before, request_id_of(), keep);
            let g = self.pending_requests@;
            assert forall|i: int, j: int|
                0 <= i < g.len() && 0 <= j < g.len() && i != j implies (request_id_of())(#[trigger] g[i])
                != (request_id_of())(#[trigger] g[j]) by {
                if i < f.len() {
                    assert(g[i] == f[i]);
                    assert((other_request(rid))(f[i]));
                }
                if j < f.len() {
                    assert(g[j] == f[j]);
                    assert((other_request(rid))(f[j]));
                }
            }
        }
    }

    fn find_file(&self, id: &String) -> (r: Option<usize>)
        requires
            self.wf(),
        ensures
            match r {
                Some(k) => k < self.files@.len() && self.files@[k as int].meta.id@ == id@
                    && has_file(self.files@, id@) && file_with(self.files@, id@) == self.files@[k as int],
                None => !has_file(self.files@, id@),
            },
    {
        let mut i: usize = 0;
        while i < self.files.len()
            invariant
                keys_unique(self.files@, file_id_of()),
                i <= self.files@.len(),
                forall|k: int| 0 <= k < i ==> (#[trigger] self.files@[k]).meta.id@ != id@,
            decreases self.files@.len() - i,
        {
            if self.files[i].meta.id == *id {
                proof {
                    let fs = self.files@;
                    let c = choose|k: int| 0 <= k < fs.len() && (#[trigger] fs[k]).meta.id@ == id@;
                    if c != i {
                        assert((file_id_of())(fs[c]) != (file_id_of())(fs[i as int]));
                    }
                }
                return Some(i);
            }
            i = i + 1;
        }
        None
    }

    fn find_request(&self, id: &String) -> (r: Option<usize>)
        requires
            self.wf(),
        ensures
            match r {
                Some(k) => k < self.pending_requests@.len() && self.pending_requests@[k as int].id@ == id@
                    && has_request(self.pending_requests@, id@)
                    && request_with(self.pending_requests@, id@) == self.pending_requests@[k as int],
                None => !has_request(self.pending_requests@, id@),
            },
    {
        let mut i: usize = 0;
        while i < self.pending_requests.len()
            invariant
                keys_unique(self.pending_requests@, request_id_of()),
                i <= self.pending_requests@.len(),
                forall|k: int| 0 <= k < i ==> (#[trigger] self.pending_requests@[k]).id@ != id@,
            decreases self.pending_requests@.len() - i,
        {
            if self.pending_requests[i].id == *id {
                proof {
                    let rs = self.pending_requests@;
                    let c = choose|k: int| 0 <= k < rs.len() && (#[trigger] rs[k]).id@ == id@;
                    if c != i {
                        assert((request_id_of())(rs[c]) != (request_id_of())(rs[i as int]));
                    }
                }
                return Some(i);
            }
            i = i + 1;
        }
        None
    }

    /// The shared files' metadata, in room order.
    pub fn file_list(&self) -> (r: Vec<DriveFileMeta>)
        ensures
            lists_files(r@, self.files@),
    {
        let mut out: Vec<DriveFileMeta> = Vec::new();
        let mut i: usize = 0;
        while i < self.files.len()
            invariant
                i <= self.files@.len(),
                out@.len() == i,
                forall|k: int| 0 <= k < i ==> same_meta(#[trigger] out@[k], self.files@[k].meta),
            decreases self.files@.len() - i,
        {
            out.push(self.files[i].meta.duplicate());
            i = i + 1;
        }
        assert forall|k: int| 0 <= k < out@.len() implies same_meta(#[trigger] out@[k], self.files@[k].meta) by {}
        out
    }

    /// A message from the guest at `addr`, received at `now`. A list request
    /// is answered with the file list. A download request for a shared file,
    /// and any upload request, is recorded as pending (replacing one with its
    /// id) and shown to the user; a download of an unknown file is ignored.
    /// A chat message is shown under `chat_id`. Anything else is ignored.
    pub fn on_guest_message(&mut self, addr: &String, msg: DriveMessage, now: i64, chat_id: &String) -> (r: HostReaction)
        requires
            old(self).wf(),
        ensures
            final(self).wf(),
            final(self).is_online == old(self).is_online,
            final(self).files@ == old(self).files@,
            final(self).guests@ == old(self).guests@,
            !r.end_session,
            r.push_file is None,
            match msg {
                DriveMessage::ListRequest => r.event is None && final(self).pending_requests@ == old(self).pending_requests@
                    && (r.reply matches Some(DriveMessage::ListResponse { files }) && lists_files(files@, old(self).files@)),
                DriveMessage::DownloadRequest { request_id, file_id } => r.reply is None && if has_file(old(self).files@, file_id@) {
                    let f = file_with(old(self).files@, file_id@);
                    &&& final(self).pending_requests@.len() > 0
                    &&& ({
                        let q = final(self).pending_requests@.last();
                        q.id@ == request_id@ && q.request_type@ == "Download"@ && q.guest_node_id@ == addr@
                            && q.file_name@ == f.meta.name@ && q.file_size == f.meta.size
                            && (q.target_file_id matches Some(t) && t@ == file_id@) && q.timestamp == now
                    })
                    &&& final(self).pending_requests@.drop_last() == old(self).pending_requests@.filter(other_request(request_id@))
                    &&& (r.event matches Some(DriveEvent::RequestReceived { request_id: e_id, request_type, guest_node_id, file_name, file_size, target_file_id })
                        && e_id@ == request_id@ && request_type@ == "Download"@ && guest_node_id@ == addr@
                        && file_name@ == f.meta.name@ && file_size == f.meta.size
                        && (target_file_id matches Some(t) && t@ == file_id@))
                } else {
                    r.event is None && final(self).pending_requests@ == old(self).pending_requests@
                },
                DriveMessage::UploadRequest { request_id, file_name, file_size } => r.reply is None && {
                    &&& final(self).pending_requests@.len() > 0
                    &&& ({
                        let q = final(self).pending_requests@.last();
                        q.id@ == request_id@ && q.request_type@ == "Upload"@ && q.guest_node_id@ == addr@
                            && q.file_name@ == file_name@ && q.file_size == file_size && q.target_file_id is None
                            && q.timestamp == now
                    })
                    &&& final(self).pending_requests@.drop_last() == old(self).pending_requests@.filter(other_request(request_id@))
                    &&& (r.event matches Some(DriveEvent::RequestReceived { request_id: e_id, request_type, guest_node_id, file_name: e_name, file_size: e_size, target_file_id })
                        && e_id@ == request_id@ && request_type@ == "Upload"@ && guest_node_id@ == addr@
                        && e_name@ == file_name@ && e_size == file_size && target_file_id is None)
                },
                DriveMessage::ChatMessage { sender_name, content, .. } => r.reply is None
                    && final(self).pending_requests@ == old(self).pending_requests@
                    && (r.event matches Some(DriveEvent::ChatMessageReceived { id, sender_name: s, content: c, is_host })
                        && id@ == chat_id@ && s@ == sender_name@ && c@ == content@ && !is_host),
                _ => r.reply is None && r.event is None && final(self).pending_requests@ == old(self).pending_requests@,
            },
    {
        match msg {
            DriveMessage::ListRequest => {
                let files = self.file_list();
                HostReaction {
                    reply: Some(DriveMessage::ListResponse { files }),
                    event: None,
                    push_file: None,
                    end_session: false,
                }
            },
            DriveMessage::DownloadRequest { request_id, file_id } => {
                match self.find_file(&file_id) {
                    None => HostReaction { reply: None, event: None, push_file: None, end_session: false },
                    Some(k) => {
                        let name = self.files[k].meta.name.clone();
                        let size = self.files[k].meta.size;
                        let req = DriveRequest {
                            id: request_id.clone(),
                            request_type: String::from_str("Download"),
                            guest_node_id: addr.clone(),
                            file_name: name.clone(),
                            file_size: size,
                            target_file_id: Some(file_id.clone()),
                            timestamp: now,
                        };
                        self.record_request(req);
                        assert(self.pending_requests@.drop_last() =~= old(self).pending_requests@.filter(other_request(request_id@)));
                        HostReaction {
                            reply: None,
                            event: Some(DriveEvent::RequestReceived {
                                request_id,
                                request_type: String::from_str("Download"),
                                guest_node_id: addr.clone(),
                                file_name: name,
                                file_size: size,
                                target_file_id: Some(file_id),
                            }),
                            push_file: None,
                            end_session: false,
                        }
                    },
                }
            },
            DriveMessage::UploadRequest { request_id, file_name, file_size } => {
                let req = DriveRequest {
                    id: request_id.clone(),
                    request_type: String::from_str("Upload"),
                    guest_node_id: addr.clone(),
                    file_name: file_name.clone(),
                    file_size,
                    target_file_id: None,
                    timestamp: now,
                };
                self.record_request(req);
                assert(self.pending_requests@.drop_last() =~= old(self).pending_requests@.filter(other_request(request_id@)));
                HostReaction {
                    reply: None,
                    event: Some(DriveEvent::RequestReceived {
                        request_id,
                        request_type: String::from_str("Upload"),
                        guest_node_id: addr.clone(),
                        file_name,
                        file_size,
                        target_file_id: None,
                    }),
                    push_file: None,
                    end_session: false,
                }
            },
            DriveMessage::ChatMessage { sender_name, content, .. } => HostReaction {
                reply: None,
                event: Some(DriveEvent::ChatMessageReceived {
                    id: chat_id.clone(),
                    sender_name,
                    content,
                    is_host: false,
                }),
                push_file: None,
                end_session: false,
            },
            _ => HostReaction { reply: None, event: None, push_file: None, end_session: false },
        }
    }

    /// A command from the host's user interface for one guest session.
    /// Approving a pending request answers it approved and, for a download
    /// of a shared file, pushes that file; approving an unknown request does
    /// nothing. Denying answers denied. A kick ends the session; a refresh
    /// sends the file list. Guest-side commands are ignored. The room itself
    /// is not changed (a decided request stays recorded).
    pub fn on_host_command(&self, cmd: DriveCommand) -> (r: HostReaction)
        requires
            self.wf(),
        ensures
            r.event is None,
            match cmd {
                DriveCommand::ApproveRequest(id) => !r.end_session && if has_request(self.pending_requests@, id@) {
                    let q = request_with(self.pending_requests@, id@);
                    &&& (r.reply matches Some(DriveMessage::RequestDecision { request_id, approved }) && request_id@ == id@ && approved)
                    &&& (if q.request_type@ == "Download"@ && (q.target_file_id matches Some(t) && has_file(self.files@, t@)) {
                        let f = file_with(self.files@, q.target_file_id->0@);
                        r.push_file matches Some(p) && p.0@ == id@ && p.1@ == f.absolute_path@ && p.2@ == f.meta.name@
                    } else {
                        r.push_file is None
                    })
                } else {
                    r.reply is None && r.push_file is None
                },
                DriveCommand::DenyRequest(id) => !r.end_session && r.push_file is None
                    && (r.reply matches Some(DriveMessage::RequestDecision { request_id, approved }) && request_id@ == id@ && !approved),
                DriveCommand::Kick => r.end_session && r.reply is None && r.push_file is None,
                DriveCommand::RefreshFiles => !r.end_session && r.push_file is None
                    && (r.reply matches Some(DriveMessage::ListResponse { files }) && lists_files(files@, self.files@)),
                _ => !r.end_session && r.reply is None && r.push_file is None,
            },
    {
        match cmd {
            DriveCommand::ApproveRequest(id) => {
                match self.find_request(&id) {
                    None => HostReaction { reply: None, event: None, push_file: None, end_session: false },
                    Some(k) => {
                        let q = &self.pending_requests[k];
                        let mut push: Option<(String, String, String)> = None;
                        if text_eq(&q.request_type, "Download") {
                            match &q.target_file_id {
                                Some(t) => match self.find_file(t) {
                                    Some(j) => {
                                        push = Some((id.clone(), self.files[j].absolute_path.clone(), self.files[j].meta.name.clone()));
                                    },
                                    None => {},
                                },
                                None => {},
                            }
                        }
                        HostReaction {
                            reply: Some(DriveMessage::RequestDecision { request_id: id, approved: true }),
                            event: None,
                            push_file: push,
                            end_session: false,
                        }
                    },
                }
            },
            DriveCommand::DenyRequest(id) => HostReaction {
                reply: Some(DriveMessage::RequestDecision { request_id: id, approved: false }),
                event: None,
                push_file: None,
                end_session: false,
            },
            DriveCommand::Kick => HostReaction { reply: None, event: None, push_file: None, end_session: true },
            DriveCommand::RefreshFiles => {
                let files = self.file_list();
                HostReaction {
                    reply: Some(DriveMessage::ListResponse { files }),
                    event: None,
                    push_file: None,
                    end_session: false,
                }
            },
            _ => HostReaction { reply: None, event: None, push_file: None, end_session: false },
        }
    }
}

fn text_eq(s: &String, lit: &str) -> (r: bool)
    ensures
        r == (s@ == lit@),
{
    *s == String::from_str(lit)
}

/// What happened to a guest's own pending upload when the host decided on a
/// request.
pub struct GuestDecision {
    pub event: DriveEvent,
    /// The local path to upload now, when an upload was approved.
    pub upload: Option<String>,
}

/// The guest's side: its uploads awaiting a decision, by request id.
pub struct GuestSession {
    pub pending_uploads: Vec<(String, String)>,
}

pub open spec fn upload_path_for(ups: Seq<(String, String)>, id: Seq<char>) -> Option<Seq<char>> {
    if exists|k: int| 0 <= k < ups.len() && (#[trigger] ups[k]).0@ == id {
        let k = choose|k: int| 0 <= k < ups.len() && (#[trigger] ups[k]).0@ == id;
        Some(ups[k].1@)
    } else {
        None
    }
}

pub open spec fn other_upload(id: Seq<char>) -> spec_fn((String, String)) -> bool {
    |u: (String, String)| u.0@ != id
}

impl GuestSession {
    pub fn new() -> (s: Self)
        ensures
            s.pending_uploads@.len() == 0,
    {
        GuestSession { pending_uploads: Vec::new() }
    }

    pub open spec fn wf(&self) -> bool {
        keys_unique(self.pending_uploads@, |u: (String, String)| u.0@)
    }

    /// Remembers the local path of an upload request just sent.
    pub fn upload_requested(&mut self, request_id: String, path: String)
        requires
            old(self).wf(),
        ensures
            final(self).wf(),
            upload_path_for(final(self).pending_uploads@, request_id@) == Some(path@),
            forall|id: Seq<char>| id != request_id@ ==> #[trigger] upload_path_for(final(self).pending_uploads@, id)
                == upload_path_for(old(self).pending_uploads@, id),
    {
        let ghost rid = request_id@;
        let ghost pth = path@;
        self.drop_upload(&request_id);
        let ghost before = self.pending_uploads@;
        self.pending_uploads.push((request_id, path));
        proof {
            let u = self.pending_uploads@;
            let key = |x: (String, String)| x.0@;
            assert(u[before.len() as int].0@ == rid);
            assert forall|i: int, j: int|
                0 <= i < u.len() && 0 <= j < u.len() && i != j implies key(#[trigger] u[i]) != key(#[trigger] u[j]) by {
                if i < before.len() {
                    assert(u[i] == before[i]);
                }
                if j < before.len() {
                    assert(u[j] == before[j]);
                }
            }
            let c = choose|k: int| 0 <= k < u.len() && (#[trigger] u[k]).0@ == rid;
            if c != before.len() {
                assert(key(u[c]) != key(u[before.len() as int]));
            }
            assert forall|id: Seq<char>| id != rid implies #[trigger] upload_path_for(u, id) == upload_path_for(before, id) by {
                if exists|k: int| 0 <= k < u.len() && (#[trigger] u[k]).0@ == id {
                    let k = choose|k: int| 0 <= k < u.len() && (#[trigger] u[k]).0@ == id;
                    assert(k < before.len());
                    assert(u[k] == before[k]);
                    let m = choose|m: int| 0 <= m < before.len() && (#[trigger] before[m]).0@ == id;
                    if m != k {
                        assert(key(before[m]) != key(before[k]));
                    }
                }
                if exists|k: int| 0 <= k < before.len() && (#[trigger] before[k]).0@ == id {
                    let k = choose|k: int| 0 <= k < before.len() && (#[trigger] before[k]).0@ == id;
                    assert(u[k] == before[k]);
                }
            }
        }
    }

    fn drop_upload(&mut self, request_id: &String) -> (found: Option<String>)
        requires
            old(self).wf(),
        ensures
            final(self).wf(),
            final(self).pending_uploads@ == old(self).pending_uploads@.filter(other_upload(request_id@)),
            match found {
                Some(p) => upload_path_for(old(self).pending_uploads@, request_id@) == Some(p@),
                None => upload_path_for(old(self).pending_uploads@, request_id@) is None,
            },
            upload_path_for(final(self).pending_uploads@, request_id@) is None,
            forall|id: Seq<char>| id != request_id@ ==> #[trigger] upload_path_for(final(self).pending_uploads@, id)
                == upload_path_for(old(self).pending_uploads@, id),
    {
        let ghost before = self.pending_uploads@;
        let ghost keep = other_upload(request_id@);
        let ghost key = |x: (String, String)| x.0@;
        let mut kept: Vec<(String, String)> = Vec::new();
        let mut old_ups: Vec<(String, String)> = Vec::new();
        std::mem::swap(&mut old_ups, &mut self.pending_uploads);
        let n = old_ups.len();
        let mut found: Option<String> = None;
        let mut i: usize = 0;
        while i < n
            invariant
                n == before.len(),
                i <= n,
                old_ups@ == before.skip(i as int),
                keep == other_upload(request_id@),
                kept@ == before.take(i as int).filter(keep),
                keys_unique(before, key),
                key == |x: (String, String)| x.0@,
                match found {
                    Some(p) => exists|k: int| 0 <= k < i && (#[trigger] before[k]).0@ == request_id@ && before[k].1@ == p@,
                    None => forall|k: int| 0 <= k < i ==> (#[trigger] before[k]).0@ != request_id@,
                },
            decreases n - i,
        {
            proof {
                assert(before.take(i + 1) =~= before.take(i as int).push(before[i as int]));
                before.take(i as int).lemma_filter_push(before[i as int], keep);
            }
            let u = old_ups.remove(0);
            assert(u == before[i as int]);
            assert(old_ups@ =~= before.skip(i + 1));
            if u.0 == *request_id {
                found = Some(u.1);
            } else {
                kept.push(u);
            }
            i = i + 1;
        }
        assert(before.take(n as int) =~= before);
        self.pending_uploads = kept;
        proof {
            lemma_filter_keeps_unique(before, key, keep);
            let a = self.pending_uploads@;
            match &found {
                Some(p) => {
                    let k = choose|k: int| 0 <= k < n && (#[trigger] before[k]).0@ == request_id@ && before[k].1@ == p@;
                    let c = choose|m: int| 0 <= m < before.len() && (#[trigger] before[m]).0@ == request_id@;
                    if c != k {
                        assert(key(before[c]) != key(before[k]));
                    }
                },
                None => {},
            }
            assert forall|m: int| 0 <= m < a.len() implies (#[trigger] a[m]).0@ != request_id@ by {
                assert(keep(a[m]));
            }
            assert forall|id: Seq<char>| id != request_id@ implies #[trigger] upload_path_for(a, id) == upload_path_for(before, id) by {
                if exists|k: int| 0 <= k < a.len() && (#[trigger] a[k]).0@ == id {
                    let k = choose|k: int| 0 <= k < a.len() && (#[trigger] a[k]).0@ == id;
                    assert(a.contains(a[k]));
                    before.lemma_filter_contains_rev(keep, a[k]);
                    let m = choose|m: int| 0 <= m < before.len() && before[m] == a[k];
                    let c = choose|c: int| 0 <= c < before.len() && (#[trigger] before[c]).0@ == id;
                    if c != m {
                        assert(key(before[c]) != key(before[m]));
                    }
                }
                if exists|k: int| 0 <= k < before.len() && (#[trigger] before[k]).0@ == id {
                    let k = choose|k: int| 0 <= k < before.len() && (#[trigger] before[k]).0@ == id;
                    assert(keep(before[k]));
                    assert(a.contains(before[k]));
                    let m = choose|m: int| 0 <= m < a.len() && a[m] == before[k];
                    assert(a[m].0@ == id);
                    let c = choose|c: int| 0 <= c < a.len() && (#[trigger] a[c]).0@ == id;
                    if c != m {
                        assert(key(a[c]) != key(a[m]));
                    }
                }
            }
        }
        found
    }

    /// The host decided on `request_id`: the decision is shown, the pending
    /// upload (if it was one) is forgotten, and an approved upload is sent.
    pub fn on_decision(&mut self, request_id: String, approved: bool) -> (d: GuestDecision)
        requires
            old(self).wf(),
        ensures
            final(self).wf(),
            d.event matches DriveEvent::GuestDownloadDecision { request_id: e, approved: a } && e@ == request_id@ && a == approved,
            approved ==> opt_seq(d.upload) == upload_path_for(old(self).pending_uploads@, request_id@),
            !approved ==> d.upload is None,
            upload_path_for(final(self).pending_uploads@, request_id@) is None,
            forall|id: Seq<char>| id != request_id@ ==> #[trigger] upload_path_for(final(self).pending_uploads@, id)
                == upload_path_for(old(self).pending_uploads@, id),
    {
        let found = self.drop_upload(&request_id);
        let upload = if approved {
            found
        } else {
            None
        };
        GuestDecision { event: DriveEvent::GuestDownloadDecision { request_id, approved }, upload }
    }
}

pub open spec fn opt_seq(o: Option<String>) -> Option<Seq<char>> {
    match o {
        Some(s) => Some(s@),
        None => None,
    }
}

} // verus!
