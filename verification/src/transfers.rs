//! Status rules of outgoing and incoming transfers: pre-flight answers,
//! progress and terminal states, disk-space admission and the orphan sweep.

use vstd::prelude::*;
use crate::text::{chars_of, contains_chars, ends_with_chars, has_substring};

verus! {

#[derive(Debug, Clone, Copy, PartialEq, Eq, Structural)]
pub enum TransferStatus {
    Queued,
    Preparing,
    Waiting,
    Connecting,
    Sending,
    Receiving,
    Paused,
    Completed,
    Cancelled,
    Failed,
    Finalizing,
}

#[derive(Debug, Clone)]
pub struct TargetDevice {
    pub id: String,
    pub name: String,
    pub os: String,
}

/// What the sender does with the receiver's pre-flight answer.
#[derive(Debug, Clone, Copy, PartialEq, Eq, Structural)]
pub enum PreFlight {
    /// Stream the chunks.
    Proceed,
    /// The receiver already holds the identical file; nothing is sent.
    AlreadyPresent,
    /// The receiver's user declined.
    RejectedByUser,
    /// The receiver lacks disk space.
    InsufficientSpace,
}

/// Sender's reading of a pre-flight response: a refusal wins over a space
/// shortage, which wins over an identical file.
pub open spec fn preflight_spec(accepted: bool, has_space: bool, already_exists: bool) -> PreFlight {
    if !accepted {
        PreFlight::RejectedByUser
    } else if !has_space {
        PreFlight::InsufficientSpace
    } else if already_exists {
        PreFlight::AlreadyPresent
    } else {
        PreFlight::Proceed
    }
}

pub fn preflight_outcome(accepted: bool, has_space: bool, already_exists: bool) -> (o: PreFlight)
    ensures
        o == preflight_spec(accepted, has_space, already_exists),
{
    if !accepted {
        PreFlight::RejectedByUser
    } else if !has_space {
        PreFlight::InsufficientSpace
    } else if already_exists {
        PreFlight::AlreadyPresent
    } else {
        PreFlight::Proceed
    }
}

pub open spec fn is_failed_or_cancelled(s: TransferStatus) -> bool {
    s == TransferStatus::Cancelled || s == TransferStatus::Failed
}

/// Status after a progress update: `Sending`, unless a cancel or failure was
/// already recorded.
pub fn status_after_progress(current: TransferStatus) -> (s: TransferStatus)
    ensures
        s == (if is_failed_or_cancelled(current) { current } else { TransferStatus::Sending }),
{
    if current != TransferStatus::Cancelled && current != TransferStatus::Failed {
        TransferStatus::Sending
    } else {
        current
    }
}

/// Every byte was handed to the network (an empty file counts as done).
pub open spec fn all_bytes_sent(file_size: u64, transferred: u64) -> bool {
    file_size == 0 || transferred >= file_size
}

/// Status once the progress channel closes: `Completed` when every byte went
/// out and no cancel or failure was recorded; otherwise unchanged.
pub fn status_on_close(current: TransferStatus, file_size: u64, transferred: u64) -> (s:
    TransferStatus)
    ensures
        s == (if all_bytes_sent(file_size, transferred) && !is_failed_or_cancelled(current) {
            TransferStatus::Completed
        } else {
            current
        }),
{
    let all = file_size == 0 || transferred >= file_size;
    if all && current != TransferStatus::Cancelled && current != TransferStatus::Failed {
        TransferStatus::Completed
    } else {
        current
    }
}

/// The history label of a finished send.
pub fn history_status(file_size: u64, transferred: u64) -> (s: String)
    ensures
        s@ == (if all_bytes_sent(file_size, transferred) { "completed"@ } else { "failed"@ }),
{
    if file_size == 0 || transferred >= file_size {
        String::from_str("completed")
    } else {
        String::from_str("failed")
    }
}

/// The marker an engine error carries when the receiver declined.
pub open spec fn rejected_marker() -> Seq<char> {
    "REJECTED_BY_USER"@
}

pub open spec fn no_space_marker() -> Seq<char> {
    "INSUFFICIENT_SPACE"@
}

/// Estimated seconds shown for a send refused for lack of space.
pub const NO_SPACE_ETA: u64 = 999999;

/// How a failed send is shown: cancelled when the receiver declined,
/// otherwise failed; a space refusal also sets the sentinel ETA.
pub fn failed_send_status(error_message: &str, eta: u64) -> (r: (TransferStatus, u64))
    ensures
        r.0 == (if has_substring(error_message@, rejected_marker()) {
            TransferStatus::Cancelled
        } else {
            TransferStatus::Failed
        }),
        r.1 == (if has_substring(error_message@, no_space_marker()) { NO_SPACE_ETA } else { eta }),
{
    let m = chars_of(error_message);
    let rejected = chars_of("REJECTED_BY_USER");
    let no_space = chars_of("INSUFFICIENT_SPACE");
    let status = if contains_chars(m.as_slice(), rejected.as_slice()) {
        TransferStatus::Cancelled
    } else {
        TransferStatus::Failed
    };
    let new_eta = if contains_chars(m.as_slice(), no_space.as_slice()) {
        NO_SPACE_ETA
    } else {
        eta
    };
    (status, new_eta)
}

/// Flipping pause: the new pause flag and the status shown.
pub fn toggle_pause(is_paused: bool) -> (r: (bool, TransferStatus))
    ensures
        r.0 == !is_paused,
        r.1 == (if !is_paused { TransferStatus::Paused } else { TransferStatus::Sending }),
{
    if !is_paused {
        (true, TransferStatus::Paused)
    } else {
        (false, TransferStatus::Sending)
    }
}

/// Seconds left at the current speed; zero when the speed is zero.
pub fn eta_seconds(file_size: u64, transferred: u64, speed: u64) -> (eta: u64)
    ensures
        eta == (if speed == 0 {
            0
        } else {
            (if transferred >= file_size { 0 } else { file_size - transferred }) / (speed as int)
        }),
{
    let remaining = if transferred >= file_size { 0 } else { file_size - transferred };
    if speed == 0 {
        0
    } else {
        remaining / speed
    }
}

/// Bytes per second over `elapsed_ms`; zero when no time has passed.
pub fn bytes_per_second(bytes: u64, elapsed_ms: u64) -> (r: u64)
    requires
        bytes * 1000 <= u64::MAX,
    ensures
        r == (if elapsed_ms == 0 { 0 } else { (bytes * 1000) / (elapsed_ms as int) }),
{
    let scaled = bytes * 1000;
    if elapsed_ms == 0 {
        0
    } else {
        scaled / elapsed_ms
    }
}

/// Free space that is never handed to an incoming file (128 MiB).
pub const DISK_SAFETY_MARGIN_BYTES: u64 = 128 * 1024 * 1024;

/// A mounted volume: its mount point and the bytes available on it.
#[derive(Debug, Clone)]
pub struct Volume {
    pub mount_point: String,
    pub available: u64,
}

pub open spec fn starts_with_seq(s: Seq<char>, p: Seq<char>) -> bool {
    p.len() <= s.len() && s.take(p.len() as int) == p
}

/// The volume the admission check settles on, volume by volume: the deepest
/// (longest) mount point that prefixes the directory, the first of equally
/// deep ones; as its mount point's length and its available space.
pub open spec fn chosen_volume(vols: Seq<(Seq<char>, u64)>, dir: Seq<char>) -> Option<(nat, u64)>
    decreases vols.len(),
{
    if vols.len() == 0 {
        None
    } else {
        let prev = chosen_volume(vols.drop_last(), dir);
        let (mount, avail) = vols.last();
        if starts_with_seq(dir, mount) {
            match prev {
                None => Some((mount.len(), avail)),
                Some((depth, _)) => if mount.len() > depth {
                    Some((mount.len(), avail))
                } else {
                    prev
                },
            }
        } else {
            prev
        }
    }
}

/// The chosen volume is a matching one, and no matching mount point is
/// deeper; with no match, nothing is chosen.
pub proof fn lemma_chosen_is_deepest(vols: Seq<(Seq<char>, u64)>, dir: Seq<char>)
    ensures
        match chosen_volume(vols, dir) {
            None => forall|k: int| 0 <= k < vols.len() ==> !starts_with_seq(dir, (#[trigger] vols[k]).0),
            Some((n, a)) => {
                &&& forall|k: int| 0 <= k < vols.len() && starts_with_seq(dir, (#[trigger] vols[k]).0) ==> vols[k].0.len() <= n
                &&& exists|k: int| 0 <= k < vols.len() && starts_with_seq(dir, (#[trigger] vols[k]).0)
                    && vols[k].0.len() == n && vols[k].1 == a
            },
        },
    decreases vols.len(),
{
    if vols.len() > 0 {
        let p = vols.drop_last();
        lemma_chosen_is_deepest(p, dir);
        let last = vols.len() - 1;
        assert(vols.last() == vols[last]);
        assert forall|k: int| 0 <= k < p.len() implies #[trigger] vols[k] == p[k] by {}
        match chosen_volume(p, dir) {
            None => {
                if starts_with_seq(dir, vols[last].0) {
                    assert(starts_with_seq(dir, vols[last].0) && vols[last].0.len() == vols[last].0.len());
                }
            },
            Some((n, a)) => {
                let k0 = choose|k: int| 0 <= k < p.len() && starts_with_seq(dir, (#[trigger] p[k]).0)
                    && p[k].0.len() == n && p[k].1 == a;
                assert(vols[k0] == p[k0]);
            },
        }
        match chosen_volume(vols, dir) {
            None => {},
            Some((n, a)) => {
                assert forall|k: int| 0 <= k < vols.len() && starts_with_seq(dir, (#[trigger] vols[k]).0) implies vols[k].0.len() <= n by {
                    if k < p.len() {
                        assert(vols[k] == p[k]);
                    }
                }
            },
        }
    }
}

/// The available space of the chosen volume.
pub open spec fn chosen_space(vols: Seq<(Seq<char>, u64)>, dir: Seq<char>) -> Option<u64> {
    match chosen_volume(vols, dir) {
        Some((_, a)) => Some(a),
        None => None,
    }
}

pub open spec fn volume_views(vols: Seq<Volume>) -> Seq<(Seq<char>, u64)> {
    vols.map_values(|v: Volume| (v.mount_point@, v.available))
}

/// Whether `needed` bytes fit in `dir` keeping the safety margin free; when no
/// volume matches, the transfer is not blocked.
pub open spec fn has_enough_space_spec(vols: Seq<Volume>, dir: Seq<char>, needed: u64) -> bool {
    match chosen_space(volume_views(vols), dir) {
        Some(a) => (if a >= DISK_SAFETY_MARGIN_BYTES { a - DISK_SAFETY_MARGIN_BYTES } else { 0 })
            >= needed,
        None => true,
    }
}

pub fn has_enough_space(volumes: &Vec<Volume>, dir: &str, needed: u64) -> (ok: bool)
    ensures
        ok == has_enough_space_spec(volumes@, dir@, needed),
{
    let d = chars_of(dir);
    let mut best: Option<(usize, u64)> = None;
    let mut i: usize = 0;
    while i < volumes.len()
        invariant
            i <= volumes@.len(),
            d@ == dir@,
            match best {
                Some((n, a)) => chosen_volume(volume_views(volumes@.take(i as int)), dir@) == Some((n as nat, a)),
                None => chosen_volume(volume_views(volumes@.take(i as int)), dir@) is None,
            },
        decreases volumes@.len() - i,
    {
        let v = &volumes[i];
        let m = chars_of(v.mount_point.as_str());
        proof {
            assert(volume_views(volumes@.take((i + 1) as int)).drop_last() =~= volume_views(
                volumes@.take(i as int),
            ));
            assert(volume_views(volumes@.take((i + 1) as int)).last() == (v.mount_point@, v.available));
        }
        if crate::text::starts_with_chars(d.as_slice(), m.as_slice()) {
            match best {
                None => {
                    best = Some((m.len(), v.available));
                },
                Some((depth, _)) => {
                    if m.len() > depth {
                        best = Some((m.len(), v.available));
                    }
                },
            }
        }
        i = i + 1;
    }
    assert(volumes@.take(volumes@.len() as int) =~= volumes@);
    match best {
        Some((_, a)) => {
            let free = if a >= DISK_SAFETY_MARGIN_BYTES { a - DISK_SAFETY_MARGIN_BYTES } else { 0 };
            free >= needed
        },
        None => true,
    }
}

/// Statuses during which a temp file may still be written.
pub open spec fn is_live_status(s: TransferStatus) -> bool {
    s == TransferStatus::Receiving || s == TransferStatus::Paused || s == TransferStatus::Finalizing
        || s == TransferStatus::Waiting || s == TransferStatus::Connecting
}

/// Age after which an unclaimed temp file is an orphan (5 minutes).
pub const ORPHAN_EXPIRY_SECS: u64 = 5 * 60;

/// A registry entry as the sweep sees it.
#[derive(Debug, Clone)]
pub struct LiveTransfer {
    pub id: String,
    pub status: TransferStatus,
}

pub open spec fn protected_by(name: Seq<char>, live: Seq<LiveTransfer>) -> bool {
    exists|k: int| 0 <= k < live.len() && is_live_status(live[k].status) && has_substring(name, live[k].id@)
}

/// Whether the periodic sweep deletes the file `name` of the given age: a
/// temp file, old enough, and not named after a transfer that is still live.
pub open spec fn is_orphan_spec(name: Seq<char>, age_secs: u64, live: Seq<LiveTransfer>) -> bool {
    let suffix = crate::paths::TMP_EXTENSION@;
    &&& suffix.len() <= name.len() && name.skip(name.len() - suffix.len()) == suffix
    &&& age_secs >= ORPHAN_EXPIRY_SECS
    &&& !protected_by(name, live)
}

pub fn is_orphan(name: &str, age_secs: u64, live: &Vec<LiveTransfer>) -> (r: bool)
    ensures
        r == is_orphan_spec(name@, age_secs, live@),
{
    let n = chars_of(name);
    let suffix = chars_of(crate::paths::TMP_EXTENSION);
    if !ends_with_chars(n.as_slice(), suffix.as_slice()) {
        return false;
    }
    if age_secs < ORPHAN_EXPIRY_SECS {
        return false;
    }
    let mut k: usize = 0;
    while k < live.len()
        invariant
            k <= live@.len(),
            n@ == name@,
            forall|j: int| 0 <= j < k ==> !(is_live_status(live@[j].status) && has_substring(name@, live@[j].id@)),
        decreases live@.len() - k,
    {
        let t = &live[k];
        let s = t.status;
        let live_status = s == TransferStatus::Receiving || s == TransferStatus::Paused || s
            == TransferStatus::Finalizing || s == TransferStatus::Waiting || s
            == TransferStatus::Connecting;
        if live_status {
            let id = chars_of(t.id.as_str());
            if contains_chars(n.as_slice(), id.as_slice()) {
                return false;
            }
        }
        k = k + 1;
    }
    true
}


/// What the sender's progress consumer has counted so far.
#[derive(Debug, Clone, Copy)]
pub struct SendProgress {
    pub total_transferred: u64,
    pub chunks_completed: u32,
    pub parts: u32,
    pub status: TransferStatus,
}

pub open spec fn sat_add_u64(a: u64, b: u64) -> u64 {
    if a + b > u64::MAX { u64::MAX } else { (a + b) as u64 }
}

impl SendProgress {
    pub fn new(status: TransferStatus) -> (p: Self)
        ensures
            p.total_transferred == 0 && p.chunks_completed == 0 && p.parts == 0 && p.status == status,
    {
        SendProgress { total_transferred: 0, chunks_completed: 0, parts: 0, status }
    }

    /// Counts one engine event. The part count starts the sending stage (and
    /// is published at once, which the result says); bytes and completed
    /// chunks are added, saturating; the rest changes nothing.
    pub fn apply(&mut self, event: crate::messages::ProgressEvent) -> (publish: bool)
        ensures
            match event {
                crate::messages::ProgressEvent::InitParts(n) => publish && *final(self) == (SendProgress {
                    parts: n,
                    status: TransferStatus::Sending,
                    ..*old(self)
                }),
                crate::messages::ProgressEvent::Bytes(n) => !publish && *final(self) == (SendProgress {
                    total_transferred: sat_add_u64(old(self).total_transferred, n as u64),
                    ..*old(self)
                }),
                crate::messages::ProgressEvent::ChunkCompleted(_) => !publish && *final(self) == (SendProgress {
                    chunks_completed: if old(self).chunks_completed < u32::MAX { (old(self).chunks_completed + 1) as u32 } else { u32::MAX },
                    ..*old(self)
                }),
                _ => !publish && *final(self) == *old(self),
            },
    {
        match event {
            crate::messages::ProgressEvent::InitParts(n) => {
                self.parts = n;
                self.status = TransferStatus::Sending;
                true
            },
            crate::messages::ProgressEvent::Bytes(n) => {
                self.total_transferred = self.total_transferred.saturating_add(n as u64);
                false
            },
            crate::messages::ProgressEvent::ChunkCompleted(_) => {
                self.chunks_completed = self.chunks_completed.saturating_add(1);
                false
            },
            _ => false,
        }
    }

    /// Whether a progress update is shown now: at least 200 ms since the
    /// last one, or every byte of a non-empty file sent.
    pub fn due_update(&self, since_last_ms: u64, file_size: u64) -> (r: bool)
        ensures
            r == (since_last_ms >= 200 || (file_size > 0 && self.total_transferred >= file_size)),
    {
        since_last_ms >= 200 || (file_size > 0 && self.total_transferred >= file_size)
    }
}

} // verus!
