//! The tamper-evident security state: its sealed on-disk form (a 12-byte
//! nonce followed by AES-256-GCM ciphertext under a key derived with BLAKE3),
//! and what a detected tamper leads to.

use vstd::prelude::*;
use crate::pairing::{blake3_digest, blake3_spec};
use vstd::string::StringSliceAdditionalSpecFns;
use aes_gcm::aead::{Aead, KeyInit};

verus! {

broadcast use vstd::string::group_string_axioms;

#[derive(Debug, Clone)]
pub struct SecurityState {
    pub status: String,
    pub last_online: i64,
}

impl SecurityState {
    /// The default state: active, last seen at `now_ms`.
    pub fn active(now_ms: i64) -> (s: Self)
        ensures
            s.status@ == "active"@,
            s.last_online == now_ms,
    {
        SecurityState { status: String::from_str("active"), last_online: now_ms }
    }

    /// The state after repeated tampering.
    pub fn banned() -> (s: Self)
        ensures
            s.status@ == "banned"@,
            s.last_online == 0,
    {
        SecurityState { status: String::from_str("banned"), last_online: 0 }
    }
}

/// Starts the debugger watch. Off Windows there is none, and this does
/// nothing; the Windows watch lives with the platform code.
pub fn spawn() {
}

/// Strikes after which the user is banned.
pub const MAX_TAMPER_STRIKES: u32 = 3;

/// The strike count after one more detected tamper. `stored` is the
/// persistent counter as read before this tamper (`Some(0)` where the counter
/// exists but holds no value yet); `None` means there is no persistent
/// counter (every platform but Windows, or the counter could not be opened),
/// and the tamper then counts as the last strike. The count wraps as the
/// release build's `u32` addition does.
pub fn increment_tamper_strikes(stored: Option<u32>) -> (strikes: u32)
    ensures
        stored is None ==> strikes == MAX_TAMPER_STRIKES,
        stored matches Some(s) ==> strikes == (if s == u32::MAX { 0 } else { (s + 1) as u32 }),
{
    match stored {
        None => MAX_TAMPER_STRIKES,
        Some(s) => s.wrapping_add(1),
    }
}

/// Tamper handling is skipped in debug builds and for the `-dev` data
/// directory.
pub fn tamper_exempt(debug_build: bool, dir_suffix: &str) -> (r: bool)
    ensures
        r == (debug_build || dir_suffix@ == "-dev"@),
{
    if debug_build {
        return true;
    }
    let v = crate::text::chars_of(dir_suffix);
    let d = crate::text::chars_of("-dev");
    if v.len() != d.len() {
        return false;
    }
    let mut i: usize = 0;
    while i < v.len()
        invariant
            !debug_build,
            v@ == dir_suffix@,
            d@ == "-dev"@,
            v@.len() == d@.len(),
            i <= v@.len(),
            forall|j: int| 0 <= j < i ==> v@[j] == d@[j],
        decreases v@.len() - i,
    {
        if v[i] != d[i] {
            assert(v@[i as int] != d@[i as int]);
            return false;
        }
        i = i + 1;
    }
    assert(v@ =~= d@);
    true
}

/// The state a tamper leaves after `strikes` strikes: banned from the third
/// strike on, otherwise a fresh active state.
pub fn tamper_response(strikes: u32, now_ms: i64) -> (s: SecurityState)
    ensures
        strikes >= MAX_TAMPER_STRIKES ==> s.status@ == "banned"@ && s.last_online == 0,
        strikes < MAX_TAMPER_STRIKES ==> s.status@ == "active"@ && s.last_online == now_ms,
{
    if strikes >= MAX_TAMPER_STRIKES {
        SecurityState::banned()
    } else {
        SecurityState::active(now_ms)
    }
}

/// The text before the first line break, when there is one.
pub open spec fn first_line(s: Seq<char>) -> Option<Seq<char>> {
    if s.contains('\n') {
        let k = choose|k: int| 0 <= k < s.len() && s[k] == '\n' && forall|j: int| 0 <= j < k ==> s[j] != '\n';
        Some(s.take(k))
    } else {
        None
    }
}

/// Which texts of a stored state file, read as UTF-8, are tried as the old
/// plain-text state before the file is treated as sealed: the whole text
/// when it starts with `{` and mentions `status`, then the first line when
/// the text has more than one.
pub fn legacy_state_texts(text: &str) -> (r: (Option<String>, Option<String>))
    ensures
        r.0 matches Some(t) ==> t@ == text@,
        r.0 is Some <==> (text@.len() > 0 && text@[0] == '{' && crate::text::has_substring(text@, "status"@)),
        r.1 matches Some(t) ==> first_line(text@) == Some(t@),
        r.1 is Some <==> text@.contains('\n'),
{
    let v = crate::text::chars_of(text);
    let open = crate::text::chars_of("{");
    let status = crate::text::chars_of("status");
    proof {
        reveal_strlit("{");
        reveal_strlit("status");
    }
    let whole = if crate::text::starts_with_chars(v.as_slice(), open.as_slice())
        && crate::text::contains_chars(v.as_slice(), status.as_slice()) {
        Some(crate::text::string_from_chars(v.as_slice()))
    } else {
        None
    };
    proof {
        if v@.len() > 0 && v@[0] == '{' {
            assert(v@.take(1) =~= open@);
        }
        if 1 <= v@.len() && v@.take(1) == open@ {
            assert(v@.take(1)[0] == v@[0]);
        }
    }
    let mut k: usize = 0;
    while k < v.len()
        invariant
            k <= v@.len(),
            v@ == text@,
            forall|j: int| 0 <= j < k ==> v@[j] != '\n',
            whole matches Some(t) ==> t@ == text@,
            whole is Some <==> (text@.len() > 0 && text@[0] == '{' && crate::text::has_substring(text@, "status"@)),
        decreases v@.len() - k,
    {
        if v[k] == '\n' {
            let line = crate::text::slice_chars(v.as_slice(), 0, k);
            proof {
                assert(text@.contains('\n'));
                let c = choose|c: int| 0 <= c < text@.len() && text@[c] == '\n' && forall|j: int| 0 <= j < c ==> text@[j] != '\n';
                if c < k {
                    assert(v@[c] != '\n');
                }
                if c > k {
                    assert(text@[k as int] != '\n');
                }
                assert(line@ =~= text@.take(k as int));
            }
            return (whole, Some(crate::text::string_from_chars(line.as_slice())));
        }
        k = k + 1;
    }
    proof {
        if text@.contains('\n') {
            let c = choose|c: int| 0 <= c < text@.len() && text@[c] == '\n';
            assert(v@[c] != '\n');
        }
    }
    (whole, None)
}

/// Name for AES-256-GCM encryption (no associated data) of `plaintext` under
/// `key` and `nonce`: ciphertext followed by the 16-byte tag.
pub uninterp spec fn aes_gcm_seal_spec(key: Seq<u8>, nonce: Seq<u8>, plaintext: Seq<u8>) -> Seq<u8>;

/// Name for AES-256-GCM decryption: the plaintext, or `None` when the tag does
/// not authenticate (or the input exceeds the cipher's limit).
pub uninterp spec fn aes_gcm_open_spec(key: Seq<u8>, nonce: Seq<u8>, ciphertext: Seq<u8>) -> Option<Seq<u8>>;

/// Largest plaintext AES-GCM encrypts (2^36 bytes).
pub const AES_GCM_P_MAX: u64 = 68719476736;

/// aes-gcm's `Aes256Gcm::new(key).encrypt(nonce, plaintext)`. It fails exactly
/// when the plaintext exceeds 2^36 bytes; otherwise the result is named by
/// `aes_gcm_seal_spec`, is 16 bytes longer than the plaintext, and decrypts
/// back to it (the AEAD correctness property).
#[verifier::external_body]
fn aes_gcm_encrypt(key: &[u8; 32], nonce: &[u8; 12], plaintext: &[u8]) -> (r: Option<Vec<u8>>)
    ensures
        r is None <==> plaintext@.len() > AES_GCM_P_MAX,
        r matches Some(c) ==> {
            &&& c@ == aes_gcm_seal_spec(key@, nonce@, plaintext@)
            &&& c@.len() == plaintext@.len() + 16
            &&& aes_gcm_open_spec(key@, nonce@, c@) == Some(plaintext@)
        },
{
    let cipher = aes_gcm::Aes256Gcm::new(aes_gcm::Key::<aes_gcm::Aes256Gcm>::from_slice(key));
    cipher.encrypt(aes_gcm::Nonce::from_slice(nonce), plaintext).ok()
}

/// aes-gcm's `Aes256Gcm::new(key).decrypt(nonce, ciphertext)`, named by
/// `aes_gcm_open_spec`.
#[verifier::external_body]
fn aes_gcm_decrypt(key: &[u8; 32], nonce: &[u8; 12], ciphertext: &[u8]) -> (r: Option<Vec<u8>>)
    ensures
        match r {
            Some(p) => aes_gcm_open_spec(key@, nonce@, ciphertext@) == Some(p@),
            None => aes_gcm_open_spec(key@, nonce@, ciphertext@) == None::<Seq<u8>>,
        },
{
    let cipher = aes_gcm::Aes256Gcm::new(aes_gcm::Key::<aes_gcm::Aes256Gcm>::from_slice(key));
    cipher.decrypt(aes_gcm::Nonce::from_slice(nonce), ciphertext).ok()
}

/// uuid's `Uuid::new_v4()`: the first 12 of its 16 random bytes. Nothing is
/// claimed of the value.
#[verifier::external_body]
fn random_nonce() -> (n: [u8; 12]) {
    let id = uuid::Uuid::new_v4();
    let b = id.as_bytes();
    [b[0], b[1], b[2], b[3], b[4], b[5], b[6], b[7], b[8], b[9], b[10], b[11]]
}

/// The text the state key is derived from.
pub const KEY_SALT: &'static str = "SEND2ME_SECURE_ENCRYPTION_KEY_V2_8A9B2C4D";

/// The state key: the BLAKE3 digest of the salt.
pub fn security_key() -> (k: [u8; 32])
    ensures
        k@ == blake3_spec(KEY_SALT.spec_bytes()),
{
    blake3_digest(KEY_SALT.as_bytes())
}

/// What a stored security blob opens to.
#[derive(Debug, Clone, PartialEq, Eq)]
pub enum BlobOutcome {
    /// Nothing stored (a zero-byte file is not treated as tampering).
    Empty,
    /// Too short to hold a nonce and ciphertext, or not authentic.
    Tampered,
    /// The authenticated plaintext.
    Opened(Vec<u8>),
}

pub open spec fn open_blob_spec(key: Seq<u8>, blob: Seq<u8>) -> Option<Option<Seq<u8>>> {
    if blob.len() == 0 {
        None
    } else if blob.len() <= 12 {
        Some(None)
    } else {
        Some(aes_gcm_open_spec(key, blob.take(12), blob.skip(12)))
    }
}

/// Opens a stored blob: nonce in the first 12 bytes, ciphertext after.
pub fn open_security_blob(key: &[u8; 32], blob: &[u8]) -> (r: BlobOutcome)
    ensures
        match r {
            BlobOutcome::Empty => open_blob_spec(key@, blob@) == None::<Option<Seq<u8>>>,
            BlobOutcome::Tampered => open_blob_spec(key@, blob@) == Some(None::<Seq<u8>>),
            BlobOutcome::Opened(p) => open_blob_spec(key@, blob@) == Some(Some(p@)),
        },
{
    if blob.len() == 0 {
        return BlobOutcome::Empty;
    }
    if blob.len() <= 12 {
        return BlobOutcome::Tampered;
    }
    let nonce: [u8; 12] = [
        blob[0], blob[1], blob[2], blob[3], blob[4], blob[5], blob[6], blob[7], blob[8], blob[9],
        blob[10], blob[11],
    ];
    assert(nonce@ =~= blob@.take(12));
    let mut ct: Vec<u8> = Vec::new();
    let mut i: usize = 12;
    while i < blob.len()
        invariant
            12 <= i <= blob@.len(),
            ct@ =~= blob@.subrange(12, i as int),
        decreases blob@.len() - i,
    {
        ct.push(blob[i]);
        i = i + 1;
    }
    assert(ct@ =~= blob@.skip(12));
    match aes_gcm_decrypt(key, &nonce, ct.as_slice()) {
        Some(p) => BlobOutcome::Opened(p),
        None => BlobOutcome::Tampered,
    }
}

/// Seals a serialized state for storage under a fresh random nonce; `None`
/// only when the payload exceeds the cipher's limit.
pub fn seal_security_blob(key: &[u8; 32], payload: &[u8]) -> (r: Option<Vec<u8>>)
    ensures
        r is None <==> payload@.len() > AES_GCM_P_MAX,
        r matches Some(b) ==> b@.len() == payload@.len() + 28 && open_blob_spec(key@, b@) == Some(Some(payload@)),
{
    let nonce = random_nonce();
    let ct = match aes_gcm_encrypt(key, &nonce, payload) {
        Some(c) => c,
        None => {
            return None;
        },
    };
    let mut out: Vec<u8> = Vec::new();
    let mut i: usize = 0;
    while i < 12
        invariant
            i <= 12,
            out@ =~= nonce@.take(i as int),
        decreases 12 - i,
    {
        out.push(nonce[i]);
        i = i + 1;
    }
    let mut j: usize = 0;
    while j < ct.len()
        invariant
            j <= ct@.len(),
            out@ =~= nonce@ + ct@.take(j as int),
        decreases ct@.len() - j,
    {
        out.push(ct[j]);
        j = j + 1;
    }
    assert(out@.take(12) =~= nonce@);
    assert(out@.skip(12) =~= ct@);
    Some(out)
}

/// What a save writes, a load reads back: a sealed payload opens to itself.
pub proof fn lemma_sealed_state_reopens(key: Seq<u8>, nonce: Seq<u8>, payload: Seq<u8>, ct: Seq<u8>)
    requires
        nonce.len() == 12,
        ct.len() == payload.len() + 16,
        aes_gcm_open_spec(key, nonce, ct) == Some(payload),
    ensures
        open_blob_spec(key, nonce + ct) == Some(Some(payload)),
{
    assert((nonce + ct).take(12) =~= nonce);
    assert((nonce + ct).skip(12) =~= ct);
}

} // verus!
