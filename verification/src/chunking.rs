//! Transfer planning: how many parallel chunk streams a file is split into,
//! where each chunk starts and how long it is, and whether a peer is local.

use vstd::prelude::*;

verus! {

/// Where the peer sits relative to us.
#[derive(Debug, Clone, Copy, PartialEq, Eq, Structural)]
pub enum NetworkTopology {
    /// Local Area Network (direct connection).
    Lan,
    /// Internet / Wide Area Network (hole-punched or relayed).
    Wan,
}

/// Engine power profile; `Medium` sits between `Balanced` and `MaxThroughput`.
#[derive(Debug, Clone, Copy, PartialEq, Eq, Structural)]
pub enum PowerMode {
    Balanced,
    Medium,
    MaxThroughput,
}

#[derive(Debug, Clone, Copy)]
pub struct EngineSettings {
    pub max_parallel_connections: usize,
    pub power_mode: PowerMode,
}

impl Default for EngineSettings {
    fn default() -> (s: Self)
        ensures
            s.max_parallel_connections == 8,
            s.power_mode == PowerMode::Balanced,
    {
        EngineSettings { max_parallel_connections: 8, power_mode: PowerMode::Balanced }
    }
}

/// The power mode a settings string selects: `max_throughput`, `medium`,
/// anything else is `Balanced`.
pub open spec fn power_mode_named(name: Seq<char>) -> PowerMode {
    if name == "max_throughput"@ {
        PowerMode::MaxThroughput
    } else if name == "medium"@ {
        PowerMode::Medium
    } else {
        PowerMode::Balanced
    }
}

fn chars_equal_str(a: &[char], b: &str) -> (r: bool)
    ensures
        r == (a@ == b@),
{
    let bv = crate::text::chars_of(b);
    if a.len() != bv.len() {
        return false;
    }
    let mut i: usize = 0;
    while i < a.len()
        invariant
            a@.len() == bv@.len(),
            bv@ == b@,
            i <= a@.len(),
            forall|j: int| 0 <= j < i ==> a@[j] == bv@[j],
        decreases a@.len() - i,
    {
        if a[i] != bv[i] {
            return false;
        }
        i = i + 1;
    }
    assert(a@ =~= bv@);
    true
}

pub fn power_mode_from_name(name: &str) -> (m: PowerMode)
    ensures
        m == power_mode_named(name@),
{
    let v = crate::text::chars_of(name);
    if chars_equal_str(v.as_slice(), "max_throughput") {
        PowerMode::MaxThroughput
    } else if chars_equal_str(v.as_slice(), "medium") {
        PowerMode::Medium
    } else {
        PowerMode::Balanced
    }
}

pub const MIB: u64 = 1024 * 1024;

/// Most parallel chunk streams the profile allows before the user cap.
pub open spec fn profile_cap(t: NetworkTopology, m: PowerMode) -> nat {
    match (t, m) {
        (NetworkTopology::Lan, PowerMode::MaxThroughput) => 128,
        (NetworkTopology::Lan, PowerMode::Medium) => 32,
        (NetworkTopology::Lan, PowerMode::Balanced) => 16,
        (NetworkTopology::Wan, PowerMode::MaxThroughput) => 32,
        (NetworkTopology::Wan, PowerMode::Medium) => 16,
        (NetworkTopology::Wan, PowerMode::Balanced) => 8,
    }
}

/// Target chunk size of the profile, in MiB.
pub open spec fn profile_chunk_mib(t: NetworkTopology, m: PowerMode) -> nat {
    match (t, m) {
        (NetworkTopology::Lan, PowerMode::MaxThroughput) => 8,
        (NetworkTopology::Lan, PowerMode::Medium) => 12,
        (NetworkTopology::Lan, PowerMode::Balanced) => 16,
        (NetworkTopology::Wan, PowerMode::MaxThroughput) => 32,
        (NetworkTopology::Wan, PowerMode::Medium) => 48,
        (NetworkTopology::Wan, PowerMode::Balanced) => 64,
    }
}

pub open spec fn min_nat(a: nat, b: nat) -> nat {
    if a <= b { a } else { b }
}

pub open spec fn max_nat(a: nat, b: nat) -> nat {
    if a >= b { a } else { b }
}

/// Number of chunk streams for a file: one per target-sized slice, at least
/// one, at most the profile cap and the configured connection limit, and one
/// when that limit is zero.
pub open spec fn chunk_count_spec(file_size: nat, t: NetworkTopology, s: EngineSettings) -> nat {
    let cap = min_nat(profile_cap(t, s.power_mode), s.max_parallel_connections as nat);
    let requested = max_nat(file_size / (profile_chunk_mib(t, s.power_mode) * (MIB as nat)), 1);
    max_nat(min_nat(requested, cap), 1)
}

pub struct DynamicChunker;

impl DynamicChunker {
    /// How many parallel chunk streams carry a file of `file_size` bytes.
    pub fn calculate_chunk_count(
        file_size: u64,
        topology: NetworkTopology,
        settings: &EngineSettings,
    ) -> (n: usize)
        ensures
            n == chunk_count_spec(file_size as nat, topology, *settings),
            1 <= n <= 128,
            n <= settings.max_parallel_connections || n == 1,
    {
        let mb: u64 = MIB;
        let profile: usize = match (topology, settings.power_mode) {
            (NetworkTopology::Lan, PowerMode::MaxThroughput) => 128,
            (NetworkTopology::Lan, PowerMode::Medium) => 32,
            (NetworkTopology::Lan, PowerMode::Balanced) => 16,
            (NetworkTopology::Wan, PowerMode::MaxThroughput) => 32,
            (NetworkTopology::Wan, PowerMode::Medium) => 16,
            (NetworkTopology::Wan, PowerMode::Balanced) => 8,
        };
        let cap: usize = if profile <= settings.max_parallel_connections {
            profile
        } else {
            settings.max_parallel_connections
        };
        let target_chunk_mb: u64 = match (topology, settings.power_mode) {
            (NetworkTopology::Lan, PowerMode::MaxThroughput) => 8,
            (NetworkTopology::Lan, PowerMode::Medium) => 12,
            (NetworkTopology::Lan, PowerMode::Balanced) => 16,
            (NetworkTopology::Wan, PowerMode::MaxThroughput) => 32,
            (NetworkTopology::Wan, PowerMode::Medium) => 48,
            (NetworkTopology::Wan, PowerMode::Balanced) => 64,
        };
        let q: u64 = file_size / (target_chunk_mb * mb);
        let requested: u64 = if q >= 1 { q } else { 1 };
        let capped: u64 = if requested <= cap as u64 { requested } else { cap as u64 };
        let n: u64 = if capped >= 1 { capped } else { 1 };
        n as usize
    }
}

/// One slice of a file: sent on its own stream, starting at `start_offset`.
#[derive(Debug, Clone)]
pub struct ChunkHeader {
    pub transfer_id: String,
    pub chunk_index: usize,
    pub start_offset: u64,
    pub chunk_size: u64,
}

/// Size every chunk but possibly the last has: the file size divided by the
/// chunk count, rounded up (zero for an empty file).
pub open spec fn chunk_stride(file_size: nat, chunk_count: nat) -> nat {
    if chunk_count == 0 || file_size == 0 {
        0
    } else {
        ((file_size + chunk_count - 1) / (chunk_count as int)) as nat
    }
}

pub open spec fn chunk_start(file_size: nat, chunk_count: nat, i: nat) -> nat {
    i * chunk_stride(file_size, chunk_count)
}

pub open spec fn chunk_len(file_size: nat, chunk_count: nat, i: nat) -> nat {
    let cs = chunk_stride(file_size, chunk_count);
    let start = i * cs;
    if file_size > 0 && start + cs > file_size {
        (file_size - start) as nat
    } else {
        cs
    }
}

/// The plan is well defined when no chunk would start past the end of the
/// file (otherwise the sender's size arithmetic underflows).
pub open spec fn plan_fits(file_size: nat, chunk_count: nat) -> bool {
    chunk_count >= 1 && (chunk_count - 1) * chunk_stride(file_size, chunk_count) <= file_size
}

proof fn lemma_stride_bounds(s: nat, n: nat)
    requires
        n >= 1,
        s >= 1,
    ensures
        chunk_stride(s, n) * n >= s,
        chunk_stride(s, n) >= 1,
        chunk_stride(s, n) * n < s + n,
{
    let cs = chunk_stride(s, n);
    assert(cs == (s + n - 1) / (n as int));
    vstd::arithmetic::div_mod::lemma_fundamental_div_mod((s + n - 1) as int, n as int);
    let r = (s + n - 1) % (n as int);
    assert(0 <= r < n) by {
        vstd::arithmetic::div_mod::lemma_mod_pos_bound((s + n - 1) as int, n as int);
    }
    assert(cs * n + r == s + n - 1) by (nonlinear_arith)
        requires
            (s + n - 1) as int == (n as int) * ((s + n - 1) as int / (n as int)) + r,
            cs == (s + n - 1) as int / (n as int),
    ;
    assert(cs >= 1) by (nonlinear_arith)
        requires
            cs * n + r == s + n - 1,
            0 <= r < n,
            s >= 1,
            n >= 1,
    ;
}

proof fn lemma_mul_mono(a: nat, b: nat, c: nat)
    requires
        a <= b,
    ensures
        a * c <= b * c,
{
    assert(a * c <= b * c) by (nonlinear_arith)
        requires
            a <= b,
    ;
}

/// The per-chunk headers of a transfer: chunk `i` starts at `i * stride` and
/// runs for `stride` bytes, clipped to the end of the file.
pub fn plan_chunks(transfer_id: &String, file_size: u64, chunk_count: usize) -> (plan: Vec<
    ChunkHeader,
>)
    requires
        plan_fits(file_size as nat, chunk_count as nat),
    ensures
        plan@.len() == chunk_count,
        forall|i: int|
            0 <= i < chunk_count ==> {
                &&& #[trigger] plan@[i].chunk_index == i
                &&& plan@[i].transfer_id@ == transfer_id@
                &&& plan@[i].start_offset == chunk_start(file_size as nat, chunk_count as nat, i as nat)
                &&& plan@[i].chunk_size == chunk_len(file_size as nat, chunk_count as nat, i as nat)
            },
{
    let chunk_size: u64 = if chunk_count == 0 || file_size == 0 {
        0
    } else {
        let n = chunk_count as u64;
        (file_size - 1) / n + 1
    };
    proof {
        if chunk_count > 0 && file_size > 0 {
            let n = chunk_count as int;
            let s = file_size as int;
            assert((s - 1) / n + 1 == (s + n - 1) / n) by {
                vstd::arithmetic::div_mod::lemma_div_plus_one(s - 1, n);
                assert(s - 1 + n == s + n - 1);
            }
        }
    }
    assert(chunk_size == chunk_stride(file_size as nat, chunk_count as nat));
    let mut plan: Vec<ChunkHeader> = Vec::new();
    let mut i: usize = 0;
    while i < chunk_count
        invariant
            plan_fits(file_size as nat, chunk_count as nat),
            chunk_size == chunk_stride(file_size as nat, chunk_count as nat),
            i <= chunk_count,
            plan@.len() == i,
            forall|k: int|
                0 <= k < i ==> {
                    &&& #[trigger] plan@[k].chunk_index == k
                    &&& plan@[k].transfer_id@ == transfer_id@
                    &&& plan@[k].start_offset == chunk_start(file_size as nat, chunk_count as nat, k as nat)
                    &&& plan@[k].chunk_size == chunk_len(file_size as nat, chunk_count as nat, k as nat)
                },
        decreases chunk_count - i,
    {
        proof {
            lemma_mul_mono(i as nat, (chunk_count - 1) as nat, chunk_size as nat);
            assert(i as nat * chunk_size as nat <= file_size);
        }
        let start_offset: u64 = i as u64 * chunk_size;
        let mut size: u64 = chunk_size;
        if file_size > 0 && chunk_size > file_size - start_offset {
            size = file_size - start_offset;
        }
        plan.push(ChunkHeader {
            transfer_id: transfer_id.clone(),
            chunk_index: i,
            start_offset,
            chunk_size: size,
        });
        i = i + 1;
    }
    plan
}

/// The chunk plan tiles the file: it starts at offset zero, each chunk begins
/// where the previous one ends, and the last one ends at the file size.
pub proof fn lemma_plan_tiles_file(file_size: nat, chunk_count: nat)
    requires
        plan_fits(file_size, chunk_count),
        file_size > 0,
    ensures
        chunk_start(file_size, chunk_count, 0) == 0,
        forall|i: nat|
            i + 1 < chunk_count ==> #[trigger] chunk_start(file_size, chunk_count, i) + chunk_len(
                file_size,
                chunk_count,
                i,
            ) == chunk_start(file_size, chunk_count, i + 1),
        chunk_start(file_size, chunk_count, (chunk_count - 1) as nat) + chunk_len(
            file_size,
            chunk_count,
            (chunk_count - 1) as nat,
        ) == file_size,
{
    let cs = chunk_stride(file_size, chunk_count);
    lemma_stride_bounds(file_size, chunk_count);
    assert(0 * cs == 0);
    assert forall|i: nat| i + 1 < chunk_count implies #[trigger] chunk_start(
        file_size,
        chunk_count,
        i,
    ) + chunk_len(file_size, chunk_count, i) == chunk_start(file_size, chunk_count, i + 1) by {
        lemma_mul_mono(i + 1, (chunk_count - 1) as nat, cs);
        assert((i + 1) * cs == i * cs + cs) by (nonlinear_arith);
    }
    let last = (chunk_count - 1) as nat;
    assert(last * cs + cs == chunk_count * cs) by (nonlinear_arith)
        requires
            last + 1 == chunk_count,
    ;
    assert(chunk_count * cs == cs * chunk_count) by (nonlinear_arith);
}

/// Every chunk count the chunker picks gives a well-defined plan.
pub proof fn lemma_chunker_plan_fits(file_size: nat, t: NetworkTopology, s: EngineSettings)
    ensures
        plan_fits(file_size, chunk_count_spec(file_size, t, s)),
{
    let n = chunk_count_spec(file_size, t, s);
    let tgt = profile_chunk_mib(t, s.power_mode) * (MIB as nat);
    assert(MIB == 1048576);
    assert(profile_chunk_mib(t, s.power_mode) >= 8);
    assert(tgt >= 8 * 1048576) by (nonlinear_arith)
        requires
            tgt == profile_chunk_mib(t, s.power_mode) * 1048576,
            profile_chunk_mib(t, s.power_mode) >= 8,
    ;
    if file_size > 0 && n > 1 {
        let q = file_size / tgt;
        assert(n <= q);
        assert(q * tgt <= file_size) by {
            vstd::arithmetic::div_mod::lemma_fundamental_div_mod(file_size as int, tgt as int);
            vstd::arithmetic::div_mod::lemma_mod_pos_bound(file_size as int, tgt as int);
            assert(q * tgt <= file_size) by (nonlinear_arith)
                requires
                    file_size as int == tgt as int * (file_size as int / tgt as int) + (file_size as int % tgt as int),
                    file_size as int % tgt as int >= 0,
                    q == file_size as int / tgt as int,
            ;
        }
        assert(n * tgt <= file_size) by {
            lemma_mul_mono(n, q, tgt);
        }
        let cs = chunk_stride(file_size, n);
        lemma_stride_bounds(file_size, n);
        assert(n <= 128);
        // stride * n < s + n, so (n - 1) * stride < s + n - stride <= s
        assert((n - 1) * cs <= file_size) by (nonlinear_arith)
            requires
                cs * n < file_size + n,
                n * tgt <= file_size,
                tgt >= 8388608,
                n >= 2,
                n <= 128,
                cs >= 1,
        ;
    } else if file_size == 0 {
        assert(chunk_stride(file_size, n) == 0);
        assert((n - 1) * 0 == 0) by (nonlinear_arith);
    } else {
        assert(n == 1);
        assert(0 * chunk_stride(file_size, n) == 0);
    }
}

/// Bytes per part that the send dialog assumes when it shows a part count.
pub const DISPLAY_PART_BYTES: u64 = 5 * 1024 * 1024;

/// The part count shown before a send starts: the file size over 5 MiB,
/// rounded up, at least one, capped by the connection limit.
pub open spec fn estimated_parts_spec(file_size: nat, max_parallel: nat) -> u32 {
    let parts = (file_size + 5242880 - 1) / 5242880int;
    (min_nat(max_nat(parts as nat, 1), max_parallel)) as u32
}

pub fn estimated_parts(file_size: u64, max_parallel_connections: usize) -> (p: u32)
    ensures
        p == estimated_parts_spec(file_size as nat, max_parallel_connections as nat),
{
    let parts: u64 = if file_size == 0 { 0 } else { (file_size - 1) / DISPLAY_PART_BYTES + 1 };
    proof {
        if file_size > 0 {
            vstd::arithmetic::div_mod::lemma_div_plus_one(file_size as int - 1, 5242880);
            assert(file_size as int - 1 + 5242880 == file_size as int + 5242880 - 1);
        } else {
            assert((0 + 5242880 - 1) / 5242880 == 0);
        }
    }
    let at_least_one: u64 = if parts >= 1 { parts } else { 1 };
    let mp = max_parallel_connections as u64;
    let capped: u64 = if at_least_one <= mp { at_least_one } else { mp };
    #[verifier::truncate]
    (capped as u32)
}

/// The peer's address as the connection reports it.
#[derive(Debug, Clone, Copy)]
pub enum PeerAddress {
    V4([u8; 4]),
    V6([u16; 8]),
}

/// Loopback and RFC 1918 private IPv4 ranges.
pub open spec fn ipv4_is_local(o: [u8; 4]) -> bool {
    o[0] == 127 || o[0] == 10 || (o[0] == 172 && 16 <= o[1] && o[1] <= 31) || (o[0] == 192 && o[1]
        == 168)
}

/// IPv6 loopback (`::1`), link-local (`fe80::/10`) and unique-local
/// (`fc00::/7`).
pub open spec fn ipv6_is_local(s: [u16; 8]) -> bool {
    (s[0] == 0 && s[1] == 0 && s[2] == 0 && s[3] == 0 && s[4] == 0 && s[5] == 0 && s[6] == 0 && s[7]
        == 1) || (s[0] & 0xffc0) == 0xfe80 || (s[0] & 0xfe00) == 0xfc00
}

pub open spec fn topology_spec(a: PeerAddress) -> NetworkTopology {
    match a {
        PeerAddress::V4(o) => if ipv4_is_local(o) { NetworkTopology::Lan } else { NetworkTopology::Wan },
        PeerAddress::V6(s) => if ipv6_is_local(s) { NetworkTopology::Lan } else { NetworkTopology::Wan },
    }
}

pub struct NetworkTopologyDetector;

impl NetworkTopologyDetector {
    /// Whether the connection's remote address is local or on the internet.
    pub fn classify(addr: &PeerAddress) -> (t: NetworkTopology)
        ensures
            t == topology_spec(*addr),
    {
        match addr {
            PeerAddress::V4(o) => {
                let a = o[0];
                let b = o[1];
                if a == 127 || a == 10 || (a == 172 && 16 <= b && b <= 31) || (a == 192 && b == 168) {
                    NetworkTopology::Lan
                } else {
                    NetworkTopology::Wan
                }
            },
            PeerAddress::V6(s) => {
                let loopback = s[0] == 0 && s[1] == 0 && s[2] == 0 && s[3] == 0 && s[4] == 0 && s[5]
                    == 0 && s[6] == 0 && s[7] == 1;
                let seg0 = s[0];
                if loopback || (seg0 & 0xffc0) == 0xfe80 || (seg0 & 0xfe00) == 0xfc00 {
                    NetworkTopology::Lan
                } else {
                    NetworkTopology::Wan
                }
            },
        }
    }
}

} // verus!
