//! Length-prefixed framing of control messages: a 4-byte big-endian length
//! followed by that many payload bytes.

use vstd::prelude::*;

verus! {

/// Why a frame could not be taken from a buffer.
#[derive(Debug, Clone, Copy, PartialEq, Eq, Structural)]
pub enum FrameError {
    /// Fewer bytes than the length prefix or the announced payload.
    Incomplete,
    /// The announced length exceeds the limit.
    TooLarge { len: u32, max: usize },
}

/// Largest control message accepted from a peer (64 KiB).
pub const MAX_CONTROL_MESSAGE_SIZE: usize = 64 * 1024;

pub open spec fn be_bytes(n: u32) -> Seq<u8> {
    seq![
        (n / 16777216) as u8,
        ((n / 65536) % 256) as u8,
        ((n / 256) % 256) as u8,
        (n % 256) as u8,
    ]
}

pub open spec fn be_value(b: Seq<u8>) -> nat {
    (b[0] * 16777216 + b[1] * 65536 + b[2] * 256 + b[3]) as nat
}

/// The frame that carries `payload`; the prefix is the payload length
/// truncated to 32 bits.
pub open spec fn frame_spec(payload: Seq<u8>) -> Seq<u8> {
    be_bytes(payload.len() as u32) + payload
}

/// What a receiver reads from the front of `buf`: the payload and the number
/// of bytes consumed, or why no frame is available.
pub open spec fn unframe_spec(buf: Seq<u8>, max_len: nat) -> Result<(Seq<u8>, nat), FrameError> {
    if buf.len() < 4 {
        Err(FrameError::Incomplete)
    } else {
        let len = be_value(buf.take(4));
        if len > max_len {
            Err(FrameError::TooLarge { len: len as u32, max: max_len as usize })
        } else if buf.len() < 4 + len {
            Err(FrameError::Incomplete)
        } else {
            Ok((buf.subrange(4, 4 + len as int), (4 + len) as nat))
        }
    }
}

proof fn lemma_be_roundtrip(n: u32)
    ensures
        be_value(be_bytes(n)) == n,
        be_value(be_bytes(n)) <= u32::MAX,
{
    assert(n / 16777216 < 256 && n == (n / 16777216) * 16777216 + ((n / 65536) % 256) * 65536 + ((n
        / 256) % 256) * 256 + n % 256) by (bit_vector);
}

/// Prefixes `payload` with its big-endian length.
pub fn frame(payload: &[u8]) -> (out: Vec<u8>)
    ensures
        out@ == frame_spec(payload@),
{
    #[verifier::truncate]
    let n = payload.len() as u32;
    let mut out: Vec<u8> = Vec::new();
    out.push((n / 16777216) as u8);
    out.push(((n / 65536) % 256) as u8);
    out.push(((n / 256) % 256) as u8);
    out.push((n % 256) as u8);
    let mut i: usize = 0;
    while i < payload.len()
        invariant
            i <= payload@.len(),
            n == payload@.len() as u32,
            out@ == be_bytes(n) + payload@.take(i as int),
        decreases payload@.len() - i,
    {
        out.push(payload[i]);
        assert(be_bytes(n) + payload@.take(i as int) + seq![payload@[i as int]] =~= be_bytes(n)
            + payload@.take((i + 1) as int));
        i = i + 1;
    }
    assert(payload@.take(payload@.len() as int) =~= payload@);
    out
}

/// The length a 4-byte big-endian prefix announces.
pub fn frame_len(prefix: [u8; 4]) -> (n: u32)
    ensures
        n as nat == be_value(prefix@),
{
    let b0 = prefix[0] as u32;
    let b1 = prefix[1] as u32;
    let b2 = prefix[2] as u32;
    let b3 = prefix[3] as u32;
    b0 * 16777216 + b1 * 65536 + b2 * 256 + b3
}

/// Checks an announced length against a limit before any buffer is sized
/// from it.
pub fn check_frame_len(len: u32, max_len: usize) -> (r: Result<usize, FrameError>)
    ensures
        len as nat <= max_len ==> r == Ok::<usize, FrameError>(len as usize),
        len as nat > max_len ==> r == Err::<usize, FrameError>(FrameError::TooLarge { len, max: max_len }),
{
    if len as u64 > max_len as u64 {
        Err(FrameError::TooLarge { len, max: max_len })
    } else {
        Ok(len as usize)
    }
}

/// Takes one frame from the front of `buf`.
pub fn unframe(buf: &[u8], max_len: usize) -> (r: Result<(Vec<u8>, usize), FrameError>)
    ensures
        match r {
            Ok((p, used)) => unframe_spec(buf@, max_len as nat) == Ok::<(Seq<u8>, nat), FrameError>((p@, used as nat)),
            Err(e) => unframe_spec(buf@, max_len as nat) == Err::<(Seq<u8>, nat), FrameError>(e),
        },
{
    if buf.len() < 4 {
        return Err(FrameError::Incomplete);
    }
    let prefix: [u8; 4] = [buf[0], buf[1], buf[2], buf[3]];
    assert(prefix@ =~= buf@.take(4));
    let len = frame_len(prefix);
    let n = match check_frame_len(len, max_len) {
        Ok(n) => n,
        Err(e) => {
            return Err(e);
        },
    };
    if buf.len() - 4 < n {
        return Err(FrameError::Incomplete);
    }
    let mut p: Vec<u8> = Vec::new();
    let mut i: usize = 0;
    while i < n
        invariant
            i <= n,
            4 + n <= buf@.len(),
            buf@.len() <= usize::MAX,
            p@ =~= buf@.subrange(4, 4 + i),
        decreases n - i,
    {
        p.push(buf[4 + i]);
        i = i + 1;
    }
    Ok((p, 4 + n))
}

/// Reading back a frame yields the payload it was built from, and consumes
/// exactly the frame, whatever follows it in the buffer.
pub proof fn lemma_unframe_frame(payload: Seq<u8>, rest: Seq<u8>, max_len: nat)
    requires
        payload.len() <= u32::MAX,
        payload.len() <= max_len,
    ensures
        unframe_spec(frame_spec(payload) + rest, max_len) == Ok::<(Seq<u8>, nat), FrameError>(
            (payload, 4 + payload.len())),
{
    let n = payload.len() as u32;
    lemma_be_roundtrip(n);
    let buf = frame_spec(payload) + rest;
    assert(buf.take(4) =~= be_bytes(n));
    assert(buf.subrange(4, 4 + payload.len() as int) =~= payload);
}

/// A frame whose payload exceeds the limit is refused, naming its length.
pub proof fn lemma_oversized_frame_refused(payload: Seq<u8>, rest: Seq<u8>, max_len: nat)
    requires
        payload.len() <= u32::MAX,
        payload.len() > max_len,
        max_len <= usize::MAX,
    ensures
        unframe_spec(frame_spec(payload) + rest, max_len) == Err::<(Seq<u8>, nat), FrameError>(
            FrameError::TooLarge { len: payload.len() as u32, max: max_len as usize }),
{
    let n = payload.len() as u32;
    lemma_be_roundtrip(n);
    let buf = frame_spec(payload) + rest;
    assert(buf.take(4) =~= be_bytes(n));
}

} // verus!
