//! Bookkeeping of one incoming transfer: received bytes and chunks, the
//! terminal flags, and the checks a chunk stream must pass.

use vstd::prelude::*;

verus! {

/// The counters and flags an incoming transfer is driven by.
pub struct ReceiveState {
    pub file_size: u64,
    pub chunk_count: u32,
    pub bytes_received: u64,
    pub chunks_completed: u32,
    pub cancelled: bool,
    pub failed: bool,
    pub failure_reason: Option<String>,
}

pub open spec fn reason_view(r: Option<String>) -> Option<Seq<char>> {
    match r {
        Some(s) => Some(s@),
        None => None,
    }
}

/// What the transfer's owner does once it wakes up.
#[derive(Debug, Clone, Copy, PartialEq, Eq, Structural)]
pub enum WakeOutcome {
    /// Cancelled, or failed before all chunks arrived: cleanup runs.
    Abandon,
    /// All chunks arrived: go on to verification.
    Verify,
}

/// Why a chunk stream was rejected.
#[derive(Debug, Clone, Copy, PartialEq, Eq, Structural)]
pub enum ChunkFault {
    /// Fewer payload bytes than the header announced.
    Truncated { expected: u64, got: u64 },
    /// No trailer followed the payload.
    TrailerMissing,
    /// The trailer reports a different size than the header.
    TrailerSizeMismatch { trailer: u64, header: u64 },
    /// The payload digest differs from the trailer's.
    ChecksumMismatch,
}

impl ReceiveState {
    pub open spec fn is_terminal_spec(&self) -> bool {
        self.cancelled || self.failed
    }

    /// All data has arrived, by chunk count or by byte count.
    pub open spec fn data_complete(&self) -> bool {
        self.chunks_completed >= self.chunk_count || self.bytes_received >= self.file_size
    }

    pub fn new(file_size: u64, chunk_count: u32) -> (s: Self)
        ensures
            s.file_size == file_size,
            s.chunk_count == chunk_count,
            s.bytes_received == 0,
            s.chunks_completed == 0,
            !s.cancelled,
            !s.failed,
            s.failure_reason is None,
    {
        ReceiveState {
            file_size,
            chunk_count,
            bytes_received: 0,
            chunks_completed: 0,
            cancelled: false,
            failed: false,
            failure_reason: None,
        }
    }

    pub fn is_terminal(&self) -> (r: bool)
        ensures
            r == self.is_terminal_spec(),
    {
        self.cancelled || self.failed
    }

    /// Counts `n` more payload bytes written to disk.
    pub fn record_bytes(&mut self, n: u64)
        requires
            old(self).bytes_received + n <= u64::MAX,
        ensures
            *final(self) == (ReceiveState { bytes_received: (old(self).bytes_received + n) as u64, ..*old(self) }),
    {
        self.bytes_received = self.bytes_received + n;
    }

    /// Counts one verified chunk; returns whether it was the last one.
    pub fn complete_chunk(&mut self) -> (done: bool)
        requires
            old(self).chunks_completed < u32::MAX,
        ensures
            *final(self) == (ReceiveState { chunks_completed: (old(self).chunks_completed + 1) as u32, ..*old(self) }),
            done == (final(self).chunks_completed >= final(self).chunk_count),
    {
        self.chunks_completed = self.chunks_completed + 1;
        self.chunks_completed >= self.chunk_count
    }

    /// Marks the transfer failed; the first recorded reason is kept.
    pub fn mark_failed(&mut self, reason: String)
        ensures
            final(self).failed,
            final(self).cancelled == old(self).cancelled,
            final(self).bytes_received == old(self).bytes_received,
            final(self).chunks_completed == old(self).chunks_completed,
            final(self).file_size == old(self).file_size,
            final(self).chunk_count == old(self).chunk_count,
            reason_view(final(self).failure_reason) == (match old(self).failure_reason {
                Some(r) => Some(r@),
                None => Some(reason@),
            }),
    {
        if self.failure_reason.is_none() {
            self.failure_reason = Some(reason);
        }
        self.failed = true;
    }

    pub fn mark_cancelled(&mut self)
        ensures
            *final(self) == (ReceiveState { cancelled: true, ..*old(self) }),
    {
        self.cancelled = true;
    }

    /// Reacts to the connection closing: a transfer that is neither terminal
    /// nor complete fails; returns whether it was marked failed.
    pub fn on_connection_closed(&mut self) -> (marked: bool)
        ensures
            marked == (!old(self).is_terminal_spec() && !old(self).data_complete()),
            marked ==> final(self).failed && reason_view(final(self).failure_reason) == (match old(
                self,
            ).failure_reason {
                Some(r) => Some(r@),
                None => Some("connection closed"@),
            }),
            !marked ==> *final(self) == *old(self),
            final(self).cancelled == old(self).cancelled,
            final(self).bytes_received == old(self).bytes_received,
            final(self).chunks_completed == old(self).chunks_completed,
    {
        if self.is_terminal() {
            return false;
        }
        if self.chunks_completed >= self.chunk_count || self.bytes_received >= self.file_size {
            return false;
        }
        self.mark_failed(String::from_str("connection closed"));
        true
    }

    /// Decides what happens after the owner wakes, either because all chunks
    /// arrived (`woke_from_done`) or because the transfer was terminated. A
    /// failure flagged after all data arrived is cleared.
    pub fn after_wake(&mut self, woke_from_done: bool) -> (o: WakeOutcome)
        ensures
            o == (if old(self).cancelled || (!woke_from_done && old(self).failed) {
                WakeOutcome::Abandon
            } else {
                WakeOutcome::Verify
            }),
            o == WakeOutcome::Abandon ==> *final(self) == *old(self),
            o == WakeOutcome::Verify ==> *final(self) == (ReceiveState { failed: false, ..*old(self) }),
    {
        if self.cancelled {
            return WakeOutcome::Abandon;
        }
        if !woke_from_done && self.failed {
            return WakeOutcome::Abandon;
        }
        if woke_from_done {
            self.failed = false;
        }
        WakeOutcome::Verify
    }

    /// The structural check before finalizing: every byte and every chunk
    /// accounted for.
    pub fn counts_match(&self) -> (ok: bool)
        ensures
            ok == (self.file_size == self.bytes_received && self.chunks_completed
                == self.chunk_count),
    {
        self.file_size == self.bytes_received && self.chunks_completed == self.chunk_count
    }

    /// Verification: the counts match and the file written to disk has the
    /// announced length (`disk_len` is `None` when it could not be read).
    pub fn verified(&self, disk_len: Option<u64>) -> (ok: bool)
        ensures
            ok == (self.file_size == self.bytes_received && self.chunks_completed == self.chunk_count
                && disk_len == Some(self.file_size)),
    {
        self.counts_match() && match disk_len {
            Some(n) => n == self.file_size,
            None => false,
        }
    }
}

/// How one attempt to move the finished file into place went.
#[derive(Debug, Clone, Copy, PartialEq, Eq, Structural)]
pub enum RenameOutcome {
    Done,
    /// The target name is taken.
    AlreadyExists,
    /// The source is held by another process (access denied, busy, or a
    /// sharing violation).
    Locked,
    /// Any other failure.
    Other,
}

/// Why finalizing gave up.
#[derive(Debug, Clone, Copy, PartialEq, Eq, Structural)]
pub enum RenameFailure {
    TooManyRetries,
    StillLocked,
    Io,
}

/// What finalizing does next.
#[derive(Debug, Clone, Copy, PartialEq, Eq, Structural)]
pub enum RenameAction {
    /// The file is in place.
    Finished,
    /// Pause briefly and try the same target again.
    RetryAfterPause,
    /// Pick the next free name for the target and try again.
    PickFreeTarget,
    Fail(RenameFailure),
}

/// The next step of the rename loop after an attempt that went `outcome`,
/// with `target_exists` telling whether the target path exists and
/// `attempts` retries made so far: the action, the new retry count, and
/// whether the "system processing" stage starts now (the source has stayed
/// locked for over 20 retries; `scanning` says it already started).
pub open spec fn rename_spec(outcome: RenameOutcome, target_exists: bool, attempts: u32, scanning: bool) -> (RenameAction, u32, bool) {
    if outcome == RenameOutcome::Done {
        (RenameAction::Finished, attempts, false)
    } else if outcome == RenameOutcome::Other {
        (RenameAction::Fail(RenameFailure::Io), attempts, false)
    } else if outcome == RenameOutcome::AlreadyExists || target_exists {
        (
            if attempts + 1 > 1000 {
                RenameAction::Fail(RenameFailure::TooManyRetries)
            } else {
                RenameAction::PickFreeTarget
            },
            (attempts + 1) as u32,
            false,
        )
    } else {
        (
            if attempts + 1 > 6000 {
                RenameAction::Fail(RenameFailure::StillLocked)
            } else {
                RenameAction::RetryAfterPause
            },
            (attempts + 1) as u32,
            attempts + 1 > 20 && !scanning,
        )
    }
}

pub fn rename_step(outcome: RenameOutcome, target_exists: bool, attempts: u32, scanning: bool) -> (r: (RenameAction, u32, bool))
    requires
        attempts <= 6000,
    ensures
        r == rename_spec(outcome, target_exists, attempts, scanning),
{
    match outcome {
        RenameOutcome::Done => (RenameAction::Finished, attempts, false),
        RenameOutcome::Other => (RenameAction::Fail(RenameFailure::Io), attempts, false),
        RenameOutcome::AlreadyExists => {
            let a = attempts + 1;
            if a > 1000 {
                (RenameAction::Fail(RenameFailure::TooManyRetries), a, false)
            } else {
                (RenameAction::PickFreeTarget, a, false)
            }
        },
        RenameOutcome::Locked => {
            let a = attempts + 1;
            if target_exists {
                if a > 1000 {
                    (RenameAction::Fail(RenameFailure::TooManyRetries), a, false)
                } else {
                    (RenameAction::PickFreeTarget, a, false)
                }
            } else {
                let start_scan = a > 20 && !scanning;
                if a > 6000 {
                    (RenameAction::Fail(RenameFailure::StillLocked), a, start_scan)
                } else {
                    (RenameAction::RetryAfterPause, a, start_scan)
                }
            }
        },
    }
}

/// The rename loop ends: every retry raises the count by one, and no retry
/// is allowed once the count passes 6000 (1000 when names are taken).
pub proof fn lemma_rename_loop_bounded(outcome: RenameOutcome, target_exists: bool, attempts: u32, scanning: bool)
    requires
        attempts <= 6000,
    ensures
        ({
            let next = rename_spec(outcome, target_exists, attempts, scanning);
            &&& (next.0 == RenameAction::RetryAfterPause || next.0 == RenameAction::PickFreeTarget) ==> next.1 == attempts + 1 && next.1 <= 6000
            &&& next.0 == RenameAction::PickFreeTarget ==> next.1 <= 1000
        }),
{
}

/// What the cleanup of an abandoned incoming transfer does: the partial
/// file is kept for a later resume only when the transfer failed (was not
/// cancelled) and auto-resume is on; the transfer ends cancelled or failed.
pub fn abandon_plan(cancelled: bool, auto_resume: bool) -> (r: (bool, crate::transfers::TransferStatus))
    ensures
        r.0 == (cancelled || !auto_resume),
        r.1 == (if cancelled { crate::transfers::TransferStatus::Cancelled } else { crate::transfers::TransferStatus::Failed }),
{
    let delete_tmp = cancelled || !auto_resume;
    let status = if cancelled {
        crate::transfers::TransferStatus::Cancelled
    } else {
        crate::transfers::TransferStatus::Failed
    };
    (delete_tmp, status)
}

pub open spec fn chunk_fault_spec(
    header_size: u64,
    bytes_read: u64,
    trailer_size: Option<u64>,
    digest: [u8; 16],
    trailer_digest: [u8; 16],
) -> Option<ChunkFault> {
    if bytes_read != header_size {
        Some(ChunkFault::Truncated { expected: header_size, got: bytes_read })
    } else {
        match trailer_size {
            None => Some(ChunkFault::TrailerMissing),
            Some(t) => if t != header_size {
                Some(ChunkFault::TrailerSizeMismatch { trailer: t, header: header_size })
            } else if digest@ != trailer_digest@ {
                Some(ChunkFault::ChecksumMismatch)
            } else {
                None
            },
        }
    }
}

/// Checks a finished chunk stream against its header and trailer: the byte
/// count, the trailer's presence and size, then the 128-bit digest.
pub fn check_chunk(
    header_size: u64,
    bytes_read: u64,
    trailer_size: Option<u64>,
    digest: [u8; 16],
    trailer_digest: [u8; 16],
) -> (r: Result<(), ChunkFault>)
    ensures
        r == (match chunk_fault_spec(header_size, bytes_read, trailer_size, digest, trailer_digest) {
            Some(f) => Err(f),
            None => Ok(()),
        }),
{
    if bytes_read != header_size {
        return Err(ChunkFault::Truncated { expected: header_size, got: bytes_read });
    }
    let t = match trailer_size {
        None => {
            return Err(ChunkFault::TrailerMissing);
        },
        Some(t) => t,
    };
    if t != header_size {
        return Err(ChunkFault::TrailerSizeMismatch { trailer: t, header: header_size });
    }
    let mut i: usize = 0;
    while i < 16
        invariant
            i <= 16,
            bytes_read == header_size,
            trailer_size == Some(header_size),
            forall|j: int| 0 <= j < i ==> digest@[j] == trailer_digest@[j],
        decreases 16 - i,
    {
        if digest[i] != trailer_digest[i] {
            assert(digest@[i as int] != trailer_digest@[i as int]);
            assert(digest@ != trailer_digest@);
            return Err(ChunkFault::ChecksumMismatch);
        }
        i = i + 1;
    }
    assert(digest@ =~= trailer_digest@);
    Ok(())
}

/// Percentage shown while an instantaneous stage runs: one point per 20 ms,
/// held at 95 until the stage reports done.
pub fn stage_heartbeat_percent(elapsed_ms: u64) -> (p: u32)
    ensures
        p as nat == (if elapsed_ms / 20 <= 95 { elapsed_ms / 20 } else { 95 }),
{
    let q = elapsed_ms / 20;
    if q <= 95 {
        q as u32
    } else {
        95
    }
}

} // verus!
