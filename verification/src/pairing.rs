//! Pairing codes: the code alphabet, normalising typed codes, deriving a
//! device's code, validating discovery beacons and the registry of peers seen
//! on the local network.

use vstd::prelude::*;
use crate::text::{chars_of, push_char, string_from_chars};
use vstd::string::StringSliceAdditionalSpecFns;

verus! {

broadcast use vstd::string::group_string_axioms;

/// Characters a pairing code is drawn from: upper-case letters and digits
/// without `O`, `0`, `I`, `1` and `L`.
pub const ALPHABET: [u8; 31] = [
    65, 66, 67, 68, 69, 70, 71, 72, 74, 75, 77, 78, 80, 81, 82, 83, 84, 85, 86, 87, 88, 89, 90, 50, 51, 52, 53, 54, 55, 56, 57,
];

pub open spec fn is_code_byte(b: u8) -> bool {
    ALPHABET@.contains(b)
}

/// The low byte of a character, as `c as u8` truncates it.
pub open spec fn low_byte(c: char) -> u8 {
    ((c as u32) % 256) as u8
}

/// The characters of `s` whose low byte is a code character, in order.
pub open spec fn keep_code_chars(s: Seq<char>) -> Seq<char>
    decreases s.len(),
{
    if s.len() == 0 {
        s
    } else {
        let rest = keep_code_chars(s.drop_last());
        if is_code_byte(low_byte(s.last())) {
            rest.push(s.last())
        } else {
            rest
        }
    }
}

/// Name for what `str::to_uppercase` returns: the full Unicode upper-case
/// mapping of its argument.
pub uninterp spec fn str_to_uppercase_spec(s: Seq<char>) -> Seq<char>;

/// std `str::to_uppercase`. The result is tied to the name above; of the
/// Unicode case mapping only its ASCII part is claimed: on all-ASCII text it
/// maps `a`-`z` to `A`-`Z` and keeps every other character.
#[verifier::external_body]
pub(crate) fn str_to_uppercase(s: &str) -> (r: String)
    ensures
        r@ == str_to_uppercase_spec(s@),
        crate::text::all_ascii(s@) ==> r@ == crate::text::ascii_upper_seq(s@),
{
    s.to_uppercase()
}

fn is_code_byte_exec(b: u8) -> (r: bool)
    ensures
        r == is_code_byte(b),
{
    let mut i: usize = 0;
    while i < 31
        invariant
            i <= 31,
            forall|j: int| 0 <= j < i ==> ALPHABET@[j] != b,
        decreases 31 - i,
    {
        if ALPHABET[i] == b {
            assert(ALPHABET@[i as int] == b);
            return true;
        }
        i = i + 1;
    }
    false
}

fn low_byte_exec(c: char) -> (b: u8)
    ensures
        b == low_byte(c),
{
    let n = c as u32;
    (n % 256) as u8
}

/// Keeps the characters of an upper-cased code whose low byte is in the
/// alphabet.
pub fn filter_code_chars(upper: &str) -> (r: String)
    ensures
        r@ == keep_code_chars(upper@),
{
    let v = chars_of(upper);
    let mut out = String::new();
    let mut i: usize = 0;
    while i < v.len()
        invariant
            i <= v@.len(),
            v@ == upper@,
            out@ == keep_code_chars(v@.take(i as int)),
        decreases v@.len() - i,
    {
        let c = v[i];
        assert(v@.take((i + 1) as int).drop_last() =~= v@.take(i as int));
        if is_code_byte_exec(low_byte_exec(c)) {
            push_char(&mut out, c);
        }
        i = i + 1;
    }
    assert(v@.take(v@.len() as int) =~= v@);
    out
}

pub struct Pairing;

impl Pairing {
    /// A typed code upper-cased, with every character outside the alphabet
    /// dropped.
    pub fn normalize_code(input: &str) -> (r: String)
        ensures
            r@ == keep_code_chars(str_to_uppercase_spec(input@)),
            crate::text::all_ascii(input@) ==> r@ == keep_code_chars(crate::text::ascii_upper_seq(input@)),
    {
        let upper = str_to_uppercase(input);
        filter_code_chars(upper.as_str())
    }

    /// A fresh 4-character code drawn uniformly from the alphabet.
    pub fn generate_code() -> (r: String)
        ensures
            r@.len() == 4,
            forall|i: int| 0 <= i < 4 ==> #[trigger] is_code_byte(r@[i] as u8) && (r@[i] as u32) < 128,
            is_code_text(r@),
    {
        let mut code = String::new();
        let mut k: usize = 0;
        while k < 4
            invariant
                k <= 4,
                code@.len() == k,
                forall|i: int| 0 <= i < k ==> #[trigger] is_code_byte(code@[i] as u8) && (code@[i] as u32) < 128,
            decreases 4 - k,
        {
            let idx = random_index(31);
            let b = ALPHABET[idx];
            assert(ALPHABET@[idx as int] == b);
            assert(b < 128) by {
                assert(forall|j: int| 0 <= j < 31 ==> ALPHABET@[j] < 128);
            }
            let c = b as char;
            push_char(&mut code, c);
            assert(code@[k as int] == c);
            assert((c as u8) == b);
            k = k + 1;
        }
        code
    }
}

/// Every character is an ASCII code character.
pub open spec fn is_code_text(c: Seq<char>) -> bool {
    forall|i: int| 0 <= i < c.len() ==> #[trigger] is_code_byte(c[i] as u8) && (c[i] as u32) < 128
}

proof fn lemma_code_char_fixed(ch: char)
    requires
        is_code_byte(ch as u8),
        (ch as u32) < 128,
    ensures
        low_byte(ch) == ch as u8,
        crate::text::ascii_upper(ch) == ch,
        crate::text::ascii_upper(crate::text::ascii_lower(ch)) == ch,
{
    assert(forall|j: int| 0 <= j < 31 ==> (ALPHABET@[j] <= 90 && ALPHABET@[j] >= 50));
    let k = choose|k: int| 0 <= k < ALPHABET@.len() && ALPHABET@[k] == ch as u8;
    assert(ALPHABET@[k] == ch as u8);
}

proof fn lemma_keep_code_text(c: Seq<char>)
    requires
        is_code_text(c),
    ensures
        keep_code_chars(c) == c,
    decreases c.len(),
{
    if c.len() > 0 {
        let p = c.drop_last();
        assert forall|i: int| 0 <= i < p.len() implies #[trigger] is_code_byte(p[i] as u8) && (p[i] as u32) < 128 by {
            assert(p[i] == c[i]);
        }
        lemma_keep_code_text(p);
        assert(is_code_byte(c[c.len() - 1] as u8));
        lemma_code_char_fixed(c.last());
        assert(p.push(c.last()) =~= c);
    }
}

/// A generated code is its own normal form, and so is its lower-case
/// spelling: normalising either gives the code back.
pub proof fn lemma_code_normalizes(c: Seq<char>)
    requires
        is_code_text(c),
    ensures
        crate::text::all_ascii(c),
        crate::text::all_ascii(crate::text::ascii_lower_seq(c)),
        keep_code_chars(crate::text::ascii_upper_seq(c)) == c,
        keep_code_chars(crate::text::ascii_upper_seq(crate::text::ascii_lower_seq(c))) == c,
{
    assert forall|i: int| 0 <= i < c.len() implies
        crate::text::ascii_upper_seq(c)[i] == c[i]
        && crate::text::ascii_upper_seq(crate::text::ascii_lower_seq(c))[i] == c[i]
        && (crate::text::ascii_lower_seq(c)[i] as u32) < 128 by {
        assert(is_code_byte(c[i] as u8));
        lemma_code_char_fixed(c[i]);
    }
    assert(crate::text::ascii_upper_seq(c) =~= c);
    assert(crate::text::ascii_upper_seq(crate::text::ascii_lower_seq(c)) =~= c);
    lemma_keep_code_text(c);
}

/// rand's `thread_rng().gen_range(0..bound)`: some index below `bound`;
/// which one is left open (it is random).
#[verifier::external_body]
fn random_index(bound: usize) -> (r: usize)
    requires
        bound > 0,
    ensures
        r < bound,
{
    rand::Rng::gen_range(&mut rand::thread_rng(), 0..bound)
}

/// Name for the 32-byte BLAKE3 digest of `data`.
pub uninterp spec fn blake3_spec(data: Seq<u8>) -> Seq<u8>;

/// blake3's `hash(data).as_bytes()`: the 32-byte digest of `data`, named by
/// `blake3_spec`.
#[verifier::external_body]
pub(crate) fn blake3_digest(data: &[u8]) -> (d: [u8; 32])
    ensures
        d@ == blake3_spec(data@),
{
    *blake3::hash(data).as_bytes()
}

/// Lower-case hexadecimal digit for a nibble.
pub open spec fn hex_digit(n: u8) -> char {
    if n < 10 {
        (('0' as u32) + n) as char
    } else {
        (('a' as u32) + n - 10) as char
    }
}

/// Lower-case hexadecimal of `bytes`, two digits per byte, high nibble first.
pub open spec fn hex_lower(bytes: Seq<u8>) -> Seq<char>
    decreases bytes.len(),
{
    if bytes.len() == 0 {
        Seq::empty()
    } else {
        hex_lower(bytes.drop_last()) + seq![hex_digit(bytes.last() / 16), hex_digit(bytes.last() % 16)]
    }
}

fn hex_digit_exec(n: u8) -> (c: char)
    requires
        n < 16,
    ensures
        c == hex_digit(n),
{
    if n < 10 {
        (48u8 + n) as char
    } else {
        (97u8 + n - 10) as char
    }
}

/// Appends the lower-case hex of `bytes` to `out`.
pub fn push_hex(out: &mut Vec<char>, bytes: &[u8])
    ensures
        final(out)@ == old(out)@ + hex_lower(bytes@),
{
    let ghost start = out@;
    let mut i: usize = 0;
    while i < bytes.len()
        invariant
            i <= bytes@.len(),
            out@ == start + hex_lower(bytes@.take(i as int)),
        decreases bytes@.len() - i,
    {
        let b = bytes[i];
        assert(bytes@.take((i + 1) as int).drop_last() =~= bytes@.take(i as int));
        out.push(hex_digit_exec(b / 16));
        out.push(hex_digit_exec(b % 16));
        assert(start + hex_lower(bytes@.take((i + 1) as int)) =~= start + hex_lower(bytes@.take(i as int)) + seq![hex_digit(b / 16), hex_digit(b % 16)]);
        i = i + 1;
    }
    assert(bytes@.take(bytes@.len() as int) =~= bytes@);
}

/// A device's pairing code: the first four hex digits of the BLAKE3 digest of
/// its hardware id, upper-cased.
pub open spec fn derived_code_spec(hardware_id: Seq<u8>) -> Seq<char> {
    crate::text::ascii_upper_seq(hex_lower(blake3_spec(hardware_id).take(2)))
}

pub open spec fn is_lower_hex_char(c: char) -> bool {
    ('0' <= c && c <= '9') || ('a' <= c && c <= 'f')
}

/// Four hexadecimal digits, letters upper-cased: the shape of a device's
/// pairing code.
pub open spec fn is_hex_code(c: Seq<char>) -> bool {
    &&& c.len() == 4
    &&& forall|i: int| 0 <= i < 4 ==> ('0' <= #[trigger] c[i] && c[i] <= '9') || ('A' <= c[i] && c[i] <= 'F')
}

proof fn lemma_hex_lower_shape(bytes: Seq<u8>)
    ensures
        hex_lower(bytes).len() == 2 * bytes.len(),
        forall|i: int| 0 <= i < hex_lower(bytes).len() ==> #[trigger] is_lower_hex_char(hex_lower(bytes)[i]),
    decreases bytes.len(),
{
    if bytes.len() > 0 {
        lemma_hex_lower_shape(bytes.drop_last());
        let b = bytes.last();
        let hi = hex_digit(b / 16);
        let lo = hex_digit(b % 16);
        assert(is_lower_hex_char(hi) && is_lower_hex_char(lo));
        let p = hex_lower(bytes.drop_last());
        assert(hex_lower(bytes) == p + seq![hi, lo]);
        assert forall|i: int| 0 <= i < hex_lower(bytes).len() implies #[trigger] is_lower_hex_char(hex_lower(bytes)[i]) by {
            if i < p.len() {
                assert(hex_lower(bytes)[i] == p[i]);
            }
        }
    }
}

pub fn derive_pairing_code(hardware_id: &str) -> (r: String)
    ensures
        r@ == derived_code_spec(hardware_id.spec_bytes()),
        is_hex_code(r@),
{
    let d = blake3_digest(hardware_id.as_bytes());
    let first: [u8; 2] = [d[0], d[1]];
    assert(first@ =~= d@.take(2));
    let mut hex: Vec<char> = Vec::new();
    push_hex(&mut hex, &first);
    assert(hex@ =~= hex_lower(first@));
    let up = crate::text::ascii_upper_chars(hex.as_slice());
    proof {
        lemma_hex_lower_shape(first@);
        assert forall|i: int| 0 <= i < 4 implies ('0' <= #[trigger] up@[i] && up@[i] <= '9') || ('A' <= up@[i] && up@[i] <= 'F') by {
            assert(is_lower_hex_char(hex@[i]));
            assert(up@[i] == crate::text::ascii_upper(hex@[i]));
        }
    }
    string_from_chars(up.as_slice())
}

/// The 32-byte seed of the signing key that publishes a pairing code: the
/// BLAKE3 digest of the code's bytes.
pub fn code_seed(code: &str) -> (seed: [u8; 32])
    ensures
        seed@ == blake3_spec(code.spec_bytes()),
{
    blake3_digest(code.as_bytes())
}

#[derive(Debug, Clone)]
pub struct DiscoveryBeacon {
    pub node_id: String,
    pub pairing_code: String,
    pub hostname: String,
    pub os: String,
    pub device_type: String,
}

pub open spec fn is_ascii_alnum(c: char) -> bool {
    ('0' <= c && c <= '9') || ('a' <= c && c <= 'z') || ('A' <= c && c <= 'Z')
}

/// A beacon is accepted only with a 4-character ASCII alphanumeric code.
pub open spec fn beacon_code_ok(code: Seq<char>) -> bool {
    code.len() == 4 && forall|i: int| 0 <= i < 4 ==> #[trigger] is_ascii_alnum(code[i])
}

pub fn is_valid_beacon_code(code: &str) -> (ok: bool)
    ensures
        ok == beacon_code_ok(code@),
{
    let v = chars_of(code);
    if v.len() != 4 {
        return false;
    }
    let mut i: usize = 0;
    while i < 4
        invariant
            i <= 4,
            v@ == code@,
            v@.len() == 4,
            forall|j: int| 0 <= j < i ==> #[trigger] is_ascii_alnum(v@[j]),
        decreases 4 - i,
    {
        let c = v[i];
        if !(('0' <= c && c <= '9') || ('a' <= c && c <= 'z') || ('A' <= c && c <= 'Z')) {
            assert(!is_ascii_alnum(v@[i as int]));
            return false;
        }
        i = i + 1;
    }
    true
}

/// How long a peer stays listed after its last beacon (three broadcast
/// intervals).
pub const PEER_TTL_MS: u64 = 9000;

pub struct PeerEntry {
    pub beacon: DiscoveryBeacon,
    pub seen_at_ms: u64,
}

/// Peers heard on the local network, at most one per pairing code.
pub struct PeerRegistry {
    pub entries: Vec<PeerEntry>,
}

pub open spec fn entry_fresh(e: PeerEntry, now_ms: u64) -> bool {
    (if now_ms >= e.seen_at_ms { now_ms - e.seen_at_ms } else { 0 }) < PEER_TTL_MS
}

pub open spec fn codes_unique(es: Seq<PeerEntry>) -> bool {
    forall|i: int, j: int|
        0 <= i < es.len() && 0 <= j < es.len() && i != j ==> #[trigger] es[i].beacon.pairing_code@
            != #[trigger] es[j].beacon.pairing_code@
}

/// Entries kept by a sweep at `now_ms`, order kept.
pub open spec fn fresh_entries(es: Seq<PeerEntry>, now_ms: u64) -> Seq<PeerEntry>
    decreases es.len(),
{
    if es.len() == 0 {
        es
    } else {
        let rest = fresh_entries(es.drop_last(), now_ms);
        if entry_fresh(es.last(), now_ms) {
            rest.push(es.last())
        } else {
            rest
        }
    }
}

/// `es` without the entry carrying `code`.
pub open spec fn without_code(es: Seq<PeerEntry>, code: Seq<char>) -> Seq<PeerEntry>
    decreases es.len(),
{
    if es.len() == 0 {
        es
    } else {
        let rest = without_code(es.drop_last(), code);
        if es.last().beacon.pairing_code@ == code {
            rest
        } else {
            rest.push(es.last())
        }
    }
}

/// The registry after hearing `b` at `now_ms`: stale peers dropped, any
/// earlier entry for the same code replaced by the new one at the end.
pub open spec fn observe_spec(es: Seq<PeerEntry>, b: DiscoveryBeacon, now_ms: u64) -> Seq<PeerEntry> {
    without_code(fresh_entries(es, now_ms), b.pairing_code@).push(PeerEntry { beacon: b, seen_at_ms: now_ms })
}

proof fn lemma_fresh_sub(es: Seq<PeerEntry>, now_ms: u64)
    ensures
        forall|k: int| 0 <= k < fresh_entries(es, now_ms).len() ==> entry_fresh(#[trigger] fresh_entries(es, now_ms)[k], now_ms),
        forall|k: int| 0 <= k < fresh_entries(es, now_ms).len() ==> es.contains(#[trigger] fresh_entries(es, now_ms)[k]),
    decreases es.len(),
{
    if es.len() > 0 {
        lemma_fresh_sub(es.drop_last(), now_ms);
        let rest = fresh_entries(es.drop_last(), now_ms);
        assert forall|k: int| 0 <= k < fresh_entries(es, now_ms).len() implies es.contains(#[trigger] fresh_entries(es, now_ms)[k]) by {
            if k < rest.len() {
                let m = choose|m: int| 0 <= m < es.drop_last().len() && es.drop_last()[m] == rest[k];
                assert(es[m] == rest[k]);
            } else {
                assert(es[es.len() - 1] == es.last());
            }
        }
    }
}

proof fn lemma_without_code_sub(es: Seq<PeerEntry>, code: Seq<char>)
    ensures
        forall|k: int| 0 <= k < without_code(es, code).len() ==> #[trigger] without_code(es, code)[k].beacon.pairing_code@ != code,
        forall|k: int| 0 <= k < without_code(es, code).len() ==> es.contains(#[trigger] without_code(es, code)[k]),
        codes_unique(es) ==> codes_unique(without_code(es, code)),
    decreases es.len(),
{
    if es.len() > 0 {
        let init = es.drop_last();
        lemma_without_code_sub(init, code);
        let rest = without_code(init, code);
        let r = without_code(es, code);
        let last = es.last();
        if last.beacon.pairing_code@ == code {
            assert(r == rest);
        } else {
            assert(r == rest.push(last));
        }
        assert forall|k: int| 0 <= k < r.len() implies #[trigger] r[k].beacon.pairing_code@ != code by {
            if k < rest.len() {
                assert(r[k] == rest[k]);
                assert(rest[k].beacon.pairing_code@ != code);
            }
        }
        assert forall|k: int| 0 <= k < r.len() implies es.contains(#[trigger] r[k]) by {
            if k < rest.len() {
                assert(r[k] == rest[k]);
                let m = choose|m: int| 0 <= m < init.len() && init[m] == rest[k];
                assert(es[m] == rest[k]);
            } else {
                assert(es[es.len() - 1] == last);
            }
        }
        if codes_unique(es) {
            assert(codes_unique(init)) by {
                assert forall|i: int, j: int| 0 <= i < init.len() && 0 <= j < init.len() && i != j implies #[trigger] init[i].beacon.pairing_code@ != #[trigger] init[j].beacon.pairing_code@ by {
                    assert(init[i] == es[i] && init[j] == es[j]);
                }
            }
            if last.beacon.pairing_code@ != code {
                assert forall|k: int| 0 <= k < rest.len() implies #[trigger] rest[k].beacon.pairing_code@ != last.beacon.pairing_code@ by {
                    let m = choose|m: int| 0 <= m < init.len() && init[m] == rest[k];
                    assert(es[m] == rest[k]);
                    assert(es[es.len() - 1] == last);
                }
                assert forall|i: int, j: int| 0 <= i < r.len() && 0 <= j < r.len() && i != j implies #[trigger] r[i].beacon.pairing_code@ != #[trigger] r[j].beacon.pairing_code@ by {
                    if i < rest.len() && j < rest.len() {
                        assert(r[i] == rest[i] && r[j] == rest[j]);
                    } else if i < rest.len() {
                        assert(r[i] == rest[i] && r[j] == last);
                    } else {
                        assert(r[j] == rest[j] && r[i] == last);
                    }
                }
            }
        }
    }
}

impl PeerRegistry {
    pub open spec fn view_entries(&self) -> Seq<PeerEntry> {
        self.entries@
    }

    pub fn new() -> (r: Self)
        ensures
            r.entries@.len() == 0,
    {
        PeerRegistry { entries: Vec::new() }
    }

    /// Records a beacon heard at `now_ms`: drops peers not heard from within
    /// the TTL, then stores the beacon under its pairing code.
    pub fn observe(&mut self, beacon: DiscoveryBeacon, now_ms: u64)
        ensures
            final(self).entries@ == observe_spec(old(self).entries@, beacon, now_ms),
    {
        let mut old_entries: Vec<PeerEntry> = Vec::new();
        std::mem::swap(&mut old_entries, &mut self.entries);
        let ghost all = old_entries@;
        let mut kept: Vec<PeerEntry> = Vec::new();
        let ghost mut i: int = 0;
        while old_entries.len() > 0
            invariant
                0 <= i <= all.len(),
                old_entries@ == all.skip(i),
                kept@ == fresh_entries(all.take(i), now_ms),
            decreases old_entries@.len(),
        {
            let e = old_entries.remove(0);
            proof {
                assert(all.skip(i)[0] == e);
                assert(all.take(i + 1).drop_last() =~= all.take(i));
                assert(all.take(i + 1).last() == e);
            }
            let age = if now_ms >= e.seen_at_ms { now_ms - e.seen_at_ms } else { 0 };
            if age < PEER_TTL_MS {
                kept.push(e);
            }
            proof {
                assert(old_entries@ =~= all.skip(i + 1));
                i = i + 1;
            }
        }
        assert(all.take(i) =~= all);
        let ghost fresh = kept@;
        let mut out: Vec<PeerEntry> = Vec::new();
        let ghost mut j: int = 0;
        while kept.len() > 0
            invariant
                0 <= j <= fresh.len(),
                kept@ == fresh.skip(j),
                out@ == without_code(fresh.take(j), beacon.pairing_code@),
            decreases kept@.len(),
        {
            let e = kept.remove(0);
            proof {
                assert(fresh.skip(j)[0] == e);
                assert(fresh.take(j + 1).drop_last() =~= fresh.take(j));
                assert(fresh.take(j + 1).last() == e);
            }
            if e.beacon.pairing_code != beacon.pairing_code {
                out.push(e);
            }
            proof {
                assert(kept@ =~= fresh.skip(j + 1));
                j = j + 1;
            }
        }
        assert(fresh.take(j) =~= fresh);
        out.push(PeerEntry { beacon, seen_at_ms: now_ms });
        self.entries = out;
    }

    /// The node id of the peer listed under exactly `code`.
    pub fn node_for_code(&self, code: &String) -> (r: Option<String>)
        ensures
            match r {
                Some(n) => exists|k: int| 0 <= k < self.entries@.len() && #[trigger] self.entries@[k].beacon.pairing_code@ == code@ && self.entries@[k].beacon.node_id@ == n@,
                None => forall|k: int| 0 <= k < self.entries@.len() ==> #[trigger] self.entries@[k].beacon.pairing_code@ != code@,
            },
    {
        let mut k: usize = 0;
        while k < self.entries.len()
            invariant
                k <= self.entries@.len(),
                forall|j: int| 0 <= j < k ==> #[trigger] self.entries@[j].beacon.pairing_code@ != code@,
            decreases self.entries@.len() - k,
        {
            let e = &self.entries[k];
            if e.beacon.pairing_code == *code {
                let n = e.beacon.node_id.clone();
                assert(self.entries@[k as int].beacon.pairing_code@ == code@);
                return Some(n);
            }
            k = k + 1;
        }
        None
    }
}

/// After a beacon is observed: its code maps to it, every listed peer was
/// heard within the TTL, and codes stay unique.
pub proof fn lemma_observe_laws(es: Seq<PeerEntry>, b: DiscoveryBeacon, now_ms: u64)
    requires
        codes_unique(es),
    ensures
        observe_spec(es, b, now_ms).last() == (PeerEntry { beacon: b, seen_at_ms: now_ms }),
        forall|k: int| 0 <= k < observe_spec(es, b, now_ms).len() ==> entry_fresh(#[trigger] observe_spec(es, b, now_ms)[k], now_ms),
        codes_unique(observe_spec(es, b, now_ms)),
{
    let f = fresh_entries(es, now_ms);
    lemma_fresh_sub(es, now_ms);
    let w = without_code(f, b.pairing_code@);
    lemma_without_code_sub(f, b.pairing_code@);
    let r = w.push(PeerEntry { beacon: b, seen_at_ms: now_ms });
    assert(codes_unique(f)) by {
        assert forall|i: int, j: int| 0 <= i < f.len() && 0 <= j < f.len() && i != j implies #[trigger] f[i].beacon.pairing_code@ != #[trigger] f[j].beacon.pairing_code@ by {
            lemma_fresh_order(es, now_ms, i, j);
        }
    }
    assert forall|k: int| 0 <= k < r.len() implies entry_fresh(#[trigger] r[k], now_ms) by {
        if k < w.len() {
            let m = choose|m: int| 0 <= m < f.len() && f[m] == w[k];
        }
    }
    assert forall|i: int, j: int| 0 <= i < r.len() && 0 <= j < r.len() && i != j implies #[trigger] r[i].beacon.pairing_code@ != #[trigger] r[j].beacon.pairing_code@ by {
        if i < w.len() && j < w.len() {
        } else if i < w.len() {
            assert(w[i].beacon.pairing_code@ != b.pairing_code@);
        } else {
            assert(w[j].beacon.pairing_code@ != b.pairing_code@);
        }
    }
}

/// Entries kept by the sweep come from distinct positions of the input, in
/// order.
proof fn lemma_fresh_order(es: Seq<PeerEntry>, now_ms: u64, i: int, j: int)
    requires
        codes_unique(es),
        0 <= i < fresh_entries(es, now_ms).len(),
        0 <= j < fresh_entries(es, now_ms).len(),
        i != j,
    ensures
        fresh_entries(es, now_ms)[i].beacon.pairing_code@ != fresh_entries(es, now_ms)[j].beacon.pairing_code@,
    decreases es.len(),
{
    let init = es.drop_last();
    let rest = fresh_entries(init, now_ms);
    let f = fresh_entries(es, now_ms);
    let last = es.last();
    assert(codes_unique(init)) by {
        assert forall|a: int, c: int| 0 <= a < init.len() && 0 <= c < init.len() && a != c implies #[trigger] init[a].beacon.pairing_code@ != #[trigger] init[c].beacon.pairing_code@ by {
            assert(init[a] == es[a] && init[c] == es[c]);
        }
    }
    lemma_fresh_sub(init, now_ms);
    if entry_fresh(last, now_ms) {
        assert(f == rest.push(last));
    } else {
        assert(f == rest);
    }
    if i < rest.len() && j < rest.len() {
        assert(f[i] == rest[i] && f[j] == rest[j]);
        lemma_fresh_order(init, now_ms, i, j);
    } else {
        let k = if i < rest.len() { i } else { j };
        assert(f[k] == rest[k]);
        let m = choose|m: int| 0 <= m < init.len() && init[m] == rest[k];
        assert(es[m] == rest[k]);
        assert(es[es.len() - 1] == last);
        assert(m != es.len() - 1);
        assert(f[if i < rest.len() { j } else { i }] == last);
        assert(es[m].beacon.pairing_code@ != es[es.len() - 1].beacon.pairing_code@);
    }
}


/// The ALPN protocol names of plain transfers and of folder sync.
pub const ALPN_TRANSFER: &'static str = "send2me/1";
pub const ALPN_SYNC: &'static str = "send2me-sync/1";

/// Seconds before the first retry of publishing a code mapping.
pub const PUBLISH_FIRST_BACKOFF_SECS: u64 = 2;

/// The wait before the next retry of publishing a code mapping: doubled,
/// at most 30 seconds.
pub open spec fn publish_backoff_spec(secs: u64) -> int {
    if 2 * secs < 30 {
        2 * secs
    } else {
        30
    }
}

pub fn next_publish_backoff(secs: u64) -> (r: u64)
    requires
        secs <= u64::MAX / 2,
    ensures
        r == publish_backoff_spec(secs),
{
    let d = secs * 2;
    if d < 30 {
        d
    } else {
        30
    }
}

/// The publishing waits never exceed 30 seconds, and from the first wait
/// they run 2, 4, 8, 16, then 30 for good.
pub proof fn lemma_publish_backoff_settles(secs: u64)
    requires
        secs <= 30,
    ensures
        publish_backoff_spec(secs) <= 30,
        secs >= 15 ==> publish_backoff_spec(secs) == 30,
        publish_backoff_spec(PUBLISH_FIRST_BACKOFF_SECS) == 4,
        publish_backoff_spec(4) == 8 && publish_backoff_spec(8) == 16 && publish_backoff_spec(16) == 30,
{
}


pub open spec fn opt_str(o: Option<&str>) -> Option<Seq<char>> {
    match o {
        Some(s) => Some(s@),
        None => None,
    }
}

/// The identity a device's pairing code is derived from: the machine GUID
/// when one is known and non-empty, else `<computer name>-<user name>`
/// (`Unknown` and `User` when unset), followed by the directory suffix.
pub open spec fn hardware_identity(computer_name: Option<Seq<char>>, user_name: Option<Seq<char>>, machine_guid: Option<Seq<char>>, suffix: Seq<char>) -> Seq<char> {
    let cn = match computer_name {
        Some(c) => c,
        None => "Unknown"@,
    };
    let un = match user_name {
        Some(u) => u,
        None => "User"@,
    };
    let base = if machine_guid is Some && machine_guid->0.len() > 0 {
        machine_guid->0
    } else {
        cn + "-"@ + un
    };
    base + suffix
}

/// This device's pairing code: the fixed code `5737` on the computer named
/// `GAURAV` without a directory suffix; otherwise the code derived from the
/// hardware identity.
pub open spec fn device_code_spec(computer_name: Option<Seq<char>>, user_name: Option<Seq<char>>, machine_guid: Option<Seq<char>>, suffix: Seq<char>) -> Seq<char> {
    if computer_name == Some("GAURAV"@) && suffix.len() == 0 {
        "5737"@
    } else {
        derived_code_spec(vstd::utf8::encode_utf8(hardware_identity(computer_name, user_name, machine_guid, suffix)))
    }
}

pub fn device_pairing_code(computer_name: Option<&str>, user_name: Option<&str>, machine_guid: Option<&str>, suffix: &str) -> (r: String)
    ensures
        r@ == device_code_spec(opt_str(computer_name), opt_str(user_name), opt_str(machine_guid), suffix@),
        is_hex_code(r@),
{
    let fixed = match computer_name {
        Some(c) => String::from_str(c) == String::from_str("GAURAV"),
        None => false,
    };
    if fixed && suffix.unicode_len() == 0 {
        let r = String::from_str("5737");
        proof {
            reveal_strlit("5737");
        }
        return r;
    }
    let mut id: Vec<char> = Vec::new();
    let use_guid = match machine_guid {
        Some(g) => g.unicode_len() > 0,
        None => false,
    };
    if use_guid {
        match machine_guid {
            Some(g) => {
                let gv = chars_of(g);
                crate::text::extend_chars(&mut id, gv.as_slice());
            },
            None => {},
        }
    } else {
        let cn = chars_of(match computer_name {
            Some(c) => c,
            None => "Unknown",
        });
        let un = chars_of(match user_name {
            Some(u) => u,
            None => "User",
        });
        let dash = chars_of("-");
        crate::text::extend_chars(&mut id, cn.as_slice());
        crate::text::extend_chars(&mut id, dash.as_slice());
        crate::text::extend_chars(&mut id, un.as_slice());
    }
    let sv = chars_of(suffix);
    crate::text::extend_chars(&mut id, sv.as_slice());
    let text = string_from_chars(id.as_slice());
    assert(text@ == hardware_identity(opt_str(computer_name), opt_str(user_name), opt_str(machine_guid), suffix@));
    derive_pairing_code(text.as_str())
}

/// The service an incoming connection asks for, by its ALPN name.
#[derive(Debug, Clone, Copy, PartialEq, Eq, Structural)]
pub enum ConnectionKind {
    Drive,
    Sync,
    Transfer,
}

pub fn connection_kind(alpn: &[u8]) -> (k: ConnectionKind)
    ensures
        k == (if alpn@ == crate::drive::ALPN_P2P_DRIVE.spec_bytes() {
            ConnectionKind::Drive
        } else if alpn@ == ALPN_SYNC.spec_bytes() {
            ConnectionKind::Sync
        } else {
            ConnectionKind::Transfer
        }),
{
    if bytes_equal(alpn, crate::drive::ALPN_P2P_DRIVE.as_bytes()) {
        ConnectionKind::Drive
    } else if bytes_equal(alpn, ALPN_SYNC.as_bytes()) {
        ConnectionKind::Sync
    } else {
        ConnectionKind::Transfer
    }
}

fn bytes_equal(a: &[u8], b: &[u8]) -> (r: bool)
    ensures
        r == (a@ == b@),
{
    if a.len() != b.len() {
        return false;
    }
    let mut i: usize = 0;
    while i < a.len()
        invariant
            a@.len() == b@.len(),
            i <= a@.len(),
            forall|j: int| 0 <= j < i ==> a@[j] == b@[j],
        decreases a@.len() - i,
    {
        if a[i] != b[i] {
            assert(a@[i as int] != b@[i as int]);
            return false;
        }
        i = i + 1;
    }
    assert(a@ =~= b@);
    true
}

} // verus!
