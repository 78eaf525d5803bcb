//! Devices as the user sees them (this one, nearby ones, trusted ones), the
//! application settings, where the application keeps its files, and the
//! result of a sync-bridge test.

use vstd::prelude::*;
use crate::chunking::{EngineSettings, PowerMode, power_mode_from_name, power_mode_named};
use crate::pairing::{DiscoveryBeacon, is_valid_beacon_code, beacon_code_ok, str_to_uppercase, str_to_uppercase_spec};
use crate::paths::{push_component, push_component_exec};
use crate::text::{chars_of, decimal, decimal_chars, extend_chars, string_from_chars};
use crate::messages::TestBridgeDiagnosticResponse;

verus! {

#[derive(Debug, Clone)]
pub struct Device {
    pub id: String,
    pub name: String,
    pub os: String,
    pub device_type: String,
    pub status: String,
    pub last_seen: Option<String>,
    pub is_trusted: bool,
    pub pairing_code: Option<String>,
}

pub open spec fn opt_view(o: Option<String>) -> Option<Seq<char>> {
    match o {
        Some(s) => Some(s@),
        None => None,
    }
}

impl Device {
    pub fn duplicate(&self) -> (d: Self)
        ensures
            d.id@ == self.id@,
            d.name@ == self.name@,
            d.os@ == self.os@,
            d.device_type@ == self.device_type@,
            d.status@ == self.status@,
            opt_view(d.last_seen) == opt_view(self.last_seen),
            d.is_trusted == self.is_trusted,
            opt_view(d.pairing_code) == opt_view(self.pairing_code),
    {
        Device {
            id: self.id.clone(),
            name: self.name.clone(),
            os: self.os.clone(),
            device_type: self.device_type.clone(),
            status: self.status.clone(),
            last_seen: match &self.last_seen {
                Some(s) => Some(s.clone()),
                None => None,
            },
            is_trusted: self.is_trusted,
            pairing_code: match &self.pairing_code {
                Some(s) => Some(s.clone()),
                None => None,
            },
        }
    }

    /// This device: a trusted, online desktop with its own pairing code.
    pub fn local(node_id: &String, hostname: &String, os: &String, pairing_code: &String) -> (d: Self)
        ensures
            d.id@ == node_id@,
            d.name@ == hostname@,
            d.os@ == os@,
            d.device_type@ == "desktop"@,
            d.status@ == "online"@,
            d.last_seen is None,
            d.is_trusted,
            opt_view(d.pairing_code) == Some(pairing_code@),
    {
        Device {
            id: node_id.clone(),
            name: hostname.clone(),
            os: os.clone(),
            device_type: String::from_str("desktop"),
            status: String::from_str("online"),
            last_seen: None,
            is_trusted: true,
            pairing_code: Some(pairing_code.clone()),
        }
    }

    /// A nearby device as its beacon describes it, last heard `seen_secs`
    /// seconds ago ("<n>s ago").
    pub fn from_beacon(beacon: &DiscoveryBeacon, seen_secs: u64) -> (d: Self)
        ensures
            d.id@ == beacon.node_id@,
            d.name@ == beacon.hostname@,
            d.os@ == beacon.os@,
            d.device_type@ == beacon.device_type@,
            d.status@ == "online"@,
            opt_view(d.last_seen) == Some(decimal(seen_secs as nat) + "s ago"@),
            !d.is_trusted,
            opt_view(d.pairing_code) == Some(beacon.pairing_code@),
    {
        let mut v = decimal_chars(seen_secs);
        let tail = chars_of("s ago");
        extend_chars(&mut v, tail.as_slice());
        Device {
            id: beacon.node_id.clone(),
            name: beacon.hostname.clone(),
            os: beacon.os.clone(),
            device_type: beacon.device_type.clone(),
            status: String::from_str("online"),
            last_seen: Some(string_from_chars(v.as_slice())),
            is_trusted: false,
            pairing_code: Some(beacon.pairing_code.clone()),
        }
    }
}

/// Whether a beacon answers to `id`: its pairing code equals `id` once both
/// are upper-cased, or its node id is `id`.
pub open spec fn beacon_answers(b: DiscoveryBeacon, id: Seq<char>) -> bool {
    str_to_uppercase_spec(b.pairing_code@) == str_to_uppercase_spec(id) || b.node_id@ == id
}

/// A nearby beacon that answers to `id`, if any does.
pub fn find_beacon(beacons: &Vec<DiscoveryBeacon>, id: &str) -> (r: Option<usize>)
    ensures
        match r {
            Some(k) => k < beacons@.len() && beacon_answers(beacons@[k as int], id@),
            None => forall|k: int| 0 <= k < beacons@.len() ==> !beacon_answers(#[trigger] beacons@[k], id@),
        },
{
    let want = str_to_uppercase(id);
    let id_s = String::from_str(id);
    let mut i: usize = 0;
    while i < beacons.len()
        invariant
            i <= beacons@.len(),
            want@ == str_to_uppercase_spec(id@),
            id_s@ == id@,
            forall|k: int| 0 <= k < i ==> !beacon_answers(#[trigger] beacons@[k], id@),
        decreases beacons@.len() - i,
    {
        let code_up = str_to_uppercase(beacons[i].pairing_code.as_str());
        if code_up == want || beacons[i].node_id == id_s {
            return Some(i);
        }
        i = i + 1;
    }
    None
}

/// The trusted entry written when pairing with `id`: from its beacon when
/// one answers, otherwise from the node id the code resolved to, named
/// "Device <ID>"; offline, seen at `now_text`, with the code upper-cased.
pub fn paired_device(
    beacon: &Option<DiscoveryBeacon>,
    resolved_node_id: &String,
    id: &str,
    now_text: &String,
) -> (d: Device)
    ensures
        match beacon {
            Some(b) => d.id@ == b.node_id@ && d.name@ == b.hostname@ && d.os@ == b.os@
                && d.device_type@ == b.device_type@,
            None => d.id@ == resolved_node_id@ && d.name@ == "Device "@ + str_to_uppercase_spec(id@)
                && d.os@ == "unknown"@ && d.device_type@ == "desktop"@,
        },
        d.status@ == "offline"@,
        opt_view(d.last_seen) == Some(now_text@),
        d.is_trusted,
        opt_view(d.pairing_code) == Some(str_to_uppercase_spec(id@)),
{
    let up = str_to_uppercase(id);
    let (node, name, os, kind) = match beacon {
        Some(b) => (b.node_id.clone(), b.hostname.clone(), b.os.clone(), b.device_type.clone()),
        None => {
            let mut n = chars_of("Device ");
            let u = chars_of(up.as_str());
            extend_chars(&mut n, u.as_slice());
            (resolved_node_id.clone(), string_from_chars(n.as_slice()), String::from_str("unknown"), String::from_str("desktop"))
        },
    };
    Device {
        id: node,
        name,
        os,
        device_type: kind,
        status: String::from_str("offline"),
        last_seen: Some(now_text.clone()),
        is_trusted: true,
        pairing_code: Some(up),
    }
}

/// Adds `device` to the trusted list, replacing any entry with its id; the
/// new entry goes last.
pub fn add_trusted_device(devices: &mut Vec<Device>, device: Device)
    ensures
        final(devices)@.len() > 0,
        final(devices)@.last() == device,
        forall|k: int| 0 <= k < final(devices)@.len() - 1 ==> (#[trigger] final(devices)@[k]).id@ != device.id@,
        final(devices)@.drop_last() == old(devices)@.filter(|d: Device| d.id@ != device.id@),
{
    remove_trusted_device(devices, &device.id);
    let ghost before = devices@;
    devices.push(device);
    assert(devices@.drop_last() =~= before);
    proof {
        assert forall|k: int| 0 <= k < devices@.len() - 1 implies (#[trigger] devices@[k]).id@ != device.id@ by {
            assert(devices@[k] == before[k]);
            assert(before.contains(before[k]));
        }
    }
}

/// Removes every trusted entry with `id`.
pub fn remove_trusted_device(devices: &mut Vec<Device>, id: &String)
    ensures
        final(devices)@ == old(devices)@.filter(|d: Device| d.id@ != id@),
        forall|k: int| 0 <= k < final(devices)@.len() ==> (#[trigger] final(devices)@[k]).id@ != id@,
{
    let ghost before = devices@;
    let ghost keep = |d: Device| d.id@ != id@;
    let mut old_list: Vec<Device> = Vec::new();
    std::mem::swap(&mut old_list, devices);
    let n = old_list.len();
    let mut i: usize = 0;
    while i < n
        invariant
            n == before.len(),
            i <= n,
            old_list@ == before.skip(i as int),
            keep == (|d: Device| d.id@ != id@),
            devices@ == before.take(i as int).filter(keep),
        decreases n - i,
    {
        proof {
            assert(before.take(i + 1) =~= before.take(i as int).push(before[i as int]));
            before.take(i as int).lemma_filter_push(before[i as int], keep);
        }
        let d = old_list.remove(0);
        assert(d == before[i as int]);
        assert(old_list@ =~= before.skip(i + 1));
        if !(d.id == *id) {
            devices.push(d);
        }
        i = i + 1;
    }
    assert(before.take(n as int) =~= before);
    proof {
        let f = devices@;
        assert forall|k: int| 0 <= k < f.len() implies (#[trigger] f[k]).id@ != id@ by {
            before.lemma_filter_pred(keep, k);
        }
    }
}

/// Finds peers on the local network: a beacon is accepted only with a
/// four-character ASCII alphanumeric pairing code.
pub struct Discovery;

impl Discovery {
    /// The UDP port beacons are broadcast to.
    pub const PORT: u16 = 34567;

    pub fn accepts(beacon: &DiscoveryBeacon) -> (ok: bool)
        ensures
            ok == beacon_code_ok(beacon.pairing_code@),
    {
        is_valid_beacon_code(beacon.pairing_code.as_str())
    }
}

/// The user's settings.
#[derive(Debug, Clone)]
pub struct AppSettings {
    pub theme: String,
    pub downloads_folder: String,
    pub auto_accept_transfers: bool,
    pub auto_update: bool,
    pub animations_enabled: bool,
    pub notifications_enabled: bool,
    pub language: String,
    pub start_minimized: bool,
    pub developer_mode: bool,
    pub rgb_mode: bool,
    pub max_parallel_connections: usize,
    pub transfer_engine_mode: String,
    pub auto_resume_transfers: bool,
    pub enable_folder_sync: bool,
    pub folder_sync_installed: bool,
}

impl Default for AppSettings {
    fn default() -> (s: Self)
        ensures
            s.theme@ == "system"@,
            s.downloads_folder@ == "~/Downloads"@,
            !s.auto_accept_transfers,
            s.auto_update,
            s.animations_enabled,
            s.notifications_enabled,
            s.language@ == "en"@,
            !s.start_minimized,
            !s.developer_mode,
            s.rgb_mode,
            s.max_parallel_connections == 8,
            s.transfer_engine_mode@ == "balanced"@,
            s.auto_resume_transfers,
            !s.enable_folder_sync,
            !s.folder_sync_installed,
    {
        AppSettings {
            theme: String::from_str("system"),
            downloads_folder: String::from_str("~/Downloads"),
            auto_accept_transfers: false,
            auto_update: true,
            animations_enabled: true,
            notifications_enabled: true,
            language: String::from_str("en"),
            start_minimized: false,
            developer_mode: false,
            rgb_mode: true,
            max_parallel_connections: 8,
            transfer_engine_mode: String::from_str("balanced"),
            auto_resume_transfers: true,
            enable_folder_sync: false,
            folder_sync_installed: false,
        }
    }
}

impl AppSettings {
    /// The transfer engine's settings: the parallel connection count, and
    /// the power mode the engine-mode name selects.
    pub fn engine_settings(&self) -> (e: EngineSettings)
        ensures
            e.max_parallel_connections == self.max_parallel_connections,
            e.power_mode == power_mode_named(self.transfer_engine_mode@),
    {
        EngineSettings {
            max_parallel_connections: self.max_parallel_connections,
            power_mode: power_mode_from_name(self.transfer_engine_mode.as_str()),
        }
    }
}

/// The application's directory under the configuration directory:
/// `send2me` followed by the directory suffix.
pub open spec fn app_dir_spec(config_dir: Seq<char>, suffix: Seq<char>) -> Seq<char> {
    push_component(config_dir, "send2me"@ + suffix)
}

/// A file of the application, such as `settings.json`.
pub open spec fn app_file_spec(config_dir: Seq<char>, suffix: Seq<char>, file_name: Seq<char>) -> Seq<char> {
    push_component(app_dir_spec(config_dir, suffix), file_name)
}

pub fn app_file(config_dir: &str, suffix: &str, file_name: &str) -> (p: String)
    ensures
        p@ == app_file_spec(config_dir@, suffix@, file_name@),
{
    let mut dir = chars_of(config_dir);
    let mut name = chars_of("send2me");
    let s = chars_of(suffix);
    extend_chars(&mut name, s.as_slice());
    push_component_exec(&mut dir, name.as_slice());
    let f = chars_of(file_name);
    push_component_exec(&mut dir, f.as_slice());
    string_from_chars(dir.as_slice())
}

/// The file that holds the settings.
pub const SETTINGS_FILE: &'static str = "settings.json";
/// The file that holds the trusted devices.
pub const TRUSTED_DEVICES_FILE: &'static str = "trusted_devices.json";
/// The file that journals actions taken while offline.
pub const OFFLINE_JOURNAL_FILE: &'static str = "offline_actions.jsonl";

/// The kinds of journaled offline action.
#[derive(Debug, Clone)]
pub enum ActionType {
    Created,
    Modified,
    Deleted,
    Renamed { new_path: String },
}

/// The journal of actions taken while offline, one JSON object per line.
pub struct OfflineLogger {
    pub journal_path: String,
}

/// Unicode white space (the `White_Space` property, as `char::is_whitespace`).
pub open spec fn is_blank(c: char) -> bool {
    ('\u{9}' <= c && c <= '\u{d}') || c == ' ' || c == '\u{85}' || c == '\u{a0}' || c == '\u{1680}'
        || ('\u{2000}' <= c && c <= '\u{200a}') || c == '\u{2028}' || c == '\u{2029}' || c == '\u{202f}'
        || c == '\u{205f}' || c == '\u{3000}'
}

fn is_blank_exec(c: char) -> (r: bool)
    ensures
        r == is_blank(c),
{
    ('\u{9}' <= c && c <= '\u{d}') || c == ' ' || c == '\u{85}' || c == '\u{a0}' || c == '\u{1680}'
        || ('\u{2000}' <= c && c <= '\u{200a}') || c == '\u{2028}' || c == '\u{2029}' || c == '\u{202f}'
        || c == '\u{205f}' || c == '\u{3000}'
}

pub open spec fn all_blank(s: Seq<char>) -> bool {
    forall|i: int| 0 <= i < s.len() ==> #[trigger] is_blank(s[i])
}

/// The journal's lines (split at `\n`, a trailing `\r` dropped), those of
/// white space only left out: each is one action to parse.
pub open spec fn journal_lines_spec(contents: Seq<char>) -> Seq<Seq<char>>
    decreases contents.len(),
{
    if contents.len() == 0 {
        Seq::empty()
    } else {
        let n = line_end(contents, 0);
        proof {
            lemma_line_end_bounds(contents, 0);
        }
        let line = strip_cr(contents.take(n));
        let rest = if n < contents.len() {
            journal_lines_spec(contents.skip(n + 1))
        } else {
            Seq::empty()
        };
        if all_blank(line) {
            rest
        } else {
            seq![line] + rest
        }
    }
}

/// Index of the first `\n` at or after `from`, or the length.
pub open spec fn line_end(s: Seq<char>, from: int) -> int
    decreases s.len() - from,
{
    if from >= s.len() {
        s.len() as int
    } else if s[from] == '\n' {
        from
    } else {
        line_end(s, from + 1)
    }
}

pub open spec fn strip_cr(s: Seq<char>) -> Seq<char> {
    if s.len() > 0 && s.last() == '\r' {
        s.drop_last()
    } else {
        s
    }
}

pub proof fn lemma_line_end_bounds(s: Seq<char>, from: int)
    requires
        0 <= from <= s.len(),
    ensures
        from <= line_end(s, from) <= s.len(),
        line_end(s, from) < s.len() ==> s[line_end(s, from)] == '\n',
        forall|k: int| from <= k < line_end(s, from) ==> s[k] != '\n',
    decreases s.len() - from,
{
    if from < s.len() && s[from] != '\n' {
        lemma_line_end_bounds(s, from + 1);
    }
}

impl OfflineLogger {
    /// The journal kept in the application's directory.
    pub fn new(config_dir: &str, suffix: &str) -> (l: Self)
        ensures
            l.journal_path@ == app_file_spec(config_dir@, suffix@, OFFLINE_JOURNAL_FILE@),
    {
        OfflineLogger { journal_path: app_file(config_dir, suffix, OFFLINE_JOURNAL_FILE) }
    }

    /// The non-blank lines of the journal's contents, in order.
    pub fn journal_lines(contents: &str) -> (r: Vec<String>)
        ensures
            r@.len() == journal_lines_spec(contents@).len(),
            forall|k: int| 0 <= k < r@.len() ==> (#[trigger] r@[k])@ == journal_lines_spec(contents@)[k],
    {
        let v = chars_of(contents);
        let mut out: Vec<String> = Vec::new();
        let mut start: usize = 0;
        let ghost total = contents@;
        assert(total.skip(0) =~= total);
        assert(out@.map_values(|s: String| s@) =~= Seq::<Seq<char>>::empty());
        while start < v.len()
            invariant
                v@ == total,
                start <= v@.len(),
                forall|k: int| 0 <= k < out@.len() ==> (#[trigger] out@[k])@ == journal_lines_spec(total)[k],
                out@.len() <= journal_lines_spec(total).len(),
                journal_lines_spec(total) == out@.map_values(|s: String| s@) + journal_lines_spec(total.skip(start as int)),
            decreases v@.len() - start,
        {
            let ghost cur = total.skip(start as int);
            let mut end: usize = start;
            while end < v.len() && v[end] != '\n'
                invariant
                    start <= end <= v@.len(),
                    v@ == total,
                    line_end(cur, 0) == line_end(cur, (end - start) as int),
                    cur == total.skip(start as int),
                decreases v@.len() - end,
            {
                end = end + 1;
            }
            proof {
                lemma_line_end_bounds(cur, 0);
                assert(line_end(cur, (end - start) as int) == (end - start) as int);
            }
            let mut line_end_at = end;
            if line_end_at > start && v[line_end_at - 1] == '\r' {
                line_end_at = line_end_at - 1;
            }
            let mut blank = true;
            let mut k: usize = start;
            while k < line_end_at
                invariant
                    start <= k <= line_end_at <= v@.len(),
                    v@ == total,
                    blank <==> forall|j: int| start <= j < k ==> #[trigger] is_blank(v@[j]),
                decreases line_end_at - k,
            {
                let c = v[k];
                if !is_blank_exec(c) {
                    blank = false;
                }
                k = k + 1;
            }
            let ghost line = strip_cr(cur.take((end - start) as int));
            proof {
                assert(line =~= total.subrange(start as int, line_end_at as int));
                if blank {
                    assert forall|j: int| 0 <= j < line.len() implies #[trigger] is_blank(line[j]) by {
                        assert(line[j] == v@[start + j]);
                    }
                } else {
                    let j = choose|j: int| start <= j < line_end_at && !is_blank(#[trigger] v@[j]);
                    assert(line[j - start] == v@[j]);
                }
            }
            let ghost prev = out@.map_values(|s: String| s@);
            if !blank {
                let mut lv: Vec<char> = Vec::new();
                let mut m: usize = start;
                while m < line_end_at
                    invariant
                        start <= m <= line_end_at <= v@.len(),
                        v@ == total,
                        lv@ == total.subrange(start as int, m as int),
                    decreases line_end_at - m,
                {
                    lv.push(v[m]);
                    assert(total.subrange(start as int, m + 1) =~= total.subrange(start as int, m as int).push(v@[m as int]));
                    m = m + 1;
                }
                out.push(string_from_chars(lv.as_slice()));
            }
            let next = if end < v.len() {
                end + 1
            } else {
                end
            };
            proof {
                let rest_spec = if (end - start) < cur.len() {
                    journal_lines_spec(cur.skip((end - start) + 1))
                } else {
                    Seq::empty()
                };
                assert(cur.len() > 0);
                if end < v@.len() {
                    assert(cur.skip((end - start) + 1) =~= total.skip(next as int));
                } else {
                    assert(total.skip(next as int) =~= Seq::<char>::empty());
                    assert(journal_lines_spec(total.skip(next as int)) == Seq::<Seq<char>>::empty());
                }
                assert(rest_spec == journal_lines_spec(total.skip(next as int)));
                if blank {
                    assert(journal_lines_spec(cur) == rest_spec);
                    assert(out@.map_values(|s: String| s@) =~= prev);
                } else {
                    assert(journal_lines_spec(cur) == seq![line] + rest_spec);
                    assert(out@.map_values(|s: String| s@) =~= prev.push(line));
                    assert(prev.push(line) + rest_spec =~= prev + (seq![line] + rest_spec));
                }
                assert forall|k: int| 0 <= k < out@.len() implies (#[trigger] out@[k])@ == journal_lines_spec(total)[k] by {
                    assert(out@.map_values(|s: String| s@)[k] == out@[k]@);
                }
            }
            start = next;
        }
        proof {
            assert(total.skip(start as int) =~= Seq::<char>::empty());
            assert(journal_lines_spec(total.skip(start as int)) == Seq::<Seq<char>>::empty());
        }
        out
    }
}

/// Renames a file that lost a conflict out of the way.
pub struct ConflictResolver;

impl ConflictResolver {
    /// The name a conflicting file is moved to:
    /// `<stem> (<peer> Conflicted Copy)[.<ext>]` beside it.
    pub fn conflict_copy_path(path: &str, peer_name: &str) -> (r: String)
        ensures
            r@ == crate::paths::conflicted_copy_spec(path@, peer_name@),
    {
        crate::paths::conflicted_copy_path(path, peer_name)
    }
}

/// What a sync-bridge test reports.
#[derive(Debug, Clone)]
pub struct BridgeTestResult {
    pub is_online: bool,
    pub latency_ms: u64,
    pub route_type: String,
    pub folders_healthy: usize,
    pub folders_total: usize,
    pub status_message: String,
    pub logs: Vec<String>,
}

/// The route a connection latency suggests: under 35 ms is taken as direct.
pub open spec fn route_for(latency_ms: u64) -> Seq<char> {
    if latency_ms < 35 {
        "Direct P2P (UDP / Local)"@
    } else {
        "Relayed P2P Tunnel"@
    }
}

/// The test's result from what the probe found: no connection (`None`), or
/// a connection after `latency_ms` with or without the peer's diagnostic
/// answer. The reported latency is at least 1 when connected; the peer's
/// log lines follow the local ones.
pub fn bridge_result(
    connected: Option<u64>,
    remote: Option<TestBridgeDiagnosticResponse>,
    folders_healthy: usize,
    folders_total: usize,
    logs: Vec<String>,
) -> (r: BridgeTestResult)
    ensures
        r.folders_healthy == folders_healthy,
        r.folders_total == folders_total,
        match connected {
            None => !r.is_online && r.latency_ms == 0 && r.route_type@ == "Offline / Disconnected"@
                && r.status_message@ == "Target peer unavailable or unreachable over network"@
                && r.logs@ == logs@,
            Some(l) => r.is_online && r.latency_ms == (if l < 1 { 1 } else { l }) && r.route_type@ == route_for(l)
                && match remote {
                    Some(d) => r.status_message@ == "Live Bridge Active & Verified (Both Sides Passed)"@
                        && r.logs@ == logs@ + d.remote_logs@,
                    None => r.status_message@ == "Connected (Direct ALPN)"@ && r.logs@ == logs@,
                },
        },
{
    match connected {
        None => BridgeTestResult {
            is_online: false,
            latency_ms: 0,
            route_type: String::from_str("Offline / Disconnected"),
            folders_healthy,
            folders_total,
            status_message: String::from_str("Target peer unavailable or unreachable over network"),
            logs,
        },
        Some(l) => {
            let route = if l < 35 {
                String::from_str("Direct P2P (UDP / Local)")
            } else {
                String::from_str("Relayed P2P Tunnel")
            };
            let latency = if l < 1 {
                1
            } else {
                l
            };
            match remote {
                Some(d) => {
                    let mut all = logs;
                    let mut extra = d.remote_logs;
                    all.append(&mut extra);
                    BridgeTestResult {
                        is_online: true,
                        latency_ms: latency,
                        route_type: route,
                        folders_healthy,
                        folders_total,
                        status_message: String::from_str("Live Bridge Active & Verified (Both Sides Passed)"),
                        logs: all,
                    }
                },
                None => BridgeTestResult {
                    is_online: true,
                    latency_ms: latency,
                    route_type: route,
                    folders_healthy,
                    folders_total,
                    status_message: String::from_str("Connected (Direct ALPN)"),
                    logs,
                },
            }
        },
    }
}

/// Folders counted healthy for a bridge test: active ones whose path exists
/// (`exists[k]` tells whether folder `k`'s path exists).
pub fn healthy_folders(statuses: &Vec<String>, exists: &Vec<bool>) -> (n: usize)
    requires
        statuses@.len() == exists@.len(),
    ensures
        n <= statuses@.len(),
        n == count_healthy(statuses@, exists@, statuses@.len() as int),
{
    let mut n: usize = 0;
    let mut i: usize = 0;
    while i < statuses.len()
        invariant
            i <= statuses@.len() == exists@.len(),
            n == count_healthy(statuses@, exists@, i as int),
            n <= i,
        decreases statuses@.len() - i,
    {
        if statuses[i] == String::from_str("active") && exists[i] {
            n = n + 1;
        }
        i = i + 1;
    }
    n
}

/// How many of the first `k` folders are active with an existing path.
pub open spec fn count_healthy(statuses: Seq<String>, exists: Seq<bool>, k: int) -> int
    decreases k,
{
    if k <= 0 {
        0
    } else {
        count_healthy(statuses, exists, k - 1) + if statuses[k - 1]@ == "active"@ && exists[k - 1] {
            1int
        } else {
            0
        }
    }
}

} // verus!
