use send2me::devices::{
    add_trusted_device, app_file, bridge_result, find_beacon, healthy_folders, paired_device,
    remove_trusted_device, AppSettings, ConflictResolver, Device, Discovery, OfflineLogger,
};
use send2me::chunking::PowerMode;
use send2me::messages::TestBridgeDiagnosticResponse;
use send2me::pairing::DiscoveryBeacon;

fn beacon(node: &str, code: &str) -> DiscoveryBeacon {
    DiscoveryBeacon {
        node_id: node.to_string(),
        pairing_code: code.to_string(),
        hostname: "host".to_string(),
        os: "linux".to_string(),
        device_type: "desktop".to_string(),
    }
}

fn dev(id: &str, name: &str) -> Device {
    Device {
        id: id.to_string(),
        name: name.to_string(),
        os: "linux".to_string(),
        device_type: "desktop".to_string(),
        status: "offline".to_string(),
        last_seen: None,
        is_trusted: true,
        pairing_code: None,
    }
}

#[test]
fn nearby_device_from_beacon() {
    let d = Device::from_beacon(&beacon("n1", "AB2C"), 12);
    assert_eq!((d.id.as_str(), d.name.as_str(), d.status.as_str()), ("n1", "host", "online"));
    assert_eq!(d.last_seen.as_deref(), Some("12s ago"));
    assert_eq!(d.pairing_code.as_deref(), Some("AB2C"));
    assert!(!d.is_trusted);
    assert_eq!(Device::from_beacon(&beacon("n1", "AB2C"), 0).last_seen.as_deref(), Some("0s ago"));
}

#[test]
fn local_device() {
    let d = Device::local(&"me".to_string(), &"box".to_string(), &"linux".to_string(), &"ZZ22".to_string());
    assert_eq!((d.device_type.as_str(), d.status.as_str(), d.is_trusted), ("desktop", "online", true));
    assert!(d.last_seen.is_none());
    assert_eq!(d.pairing_code.as_deref(), Some("ZZ22"));
}

#[test]
fn pairing_finds_beacon_by_code_or_node() {
    let beacons = vec![beacon("n1", "AB2C"), beacon("n2", "xy3z")];
    assert_eq!(find_beacon(&beacons, "ab2c"), Some(0));
    assert_eq!(find_beacon(&beacons, "XY3Z"), Some(1));
    assert_eq!(find_beacon(&beacons, "n2"), Some(1));
    assert_eq!(find_beacon(&beacons, "nope"), None);
}

#[test]
fn paired_entries() {
    let now = "2024-01-02 03:04:05".to_string();
    let d = paired_device(&Some(beacon("n1", "AB2C")), &"ignored".to_string(), "ab2c", &now);
    assert_eq!((d.id.as_str(), d.name.as_str(), d.status.as_str()), ("n1", "host", "offline"));
    assert_eq!(d.pairing_code.as_deref(), Some("AB2C"));
    assert_eq!(d.last_seen.as_deref(), Some("2024-01-02 03:04:05"));
    let d = paired_device(&None, &"resolved".to_string(), "wx9y", &now);
    assert_eq!((d.id.as_str(), d.name.as_str(), d.os.as_str(), d.device_type.as_str()), ("resolved", "Device WX9Y", "unknown", "desktop"));
    assert!(d.is_trusted);
}

#[test]
fn trusted_list_upserts_and_removes() {
    let mut list = vec![dev("a", "A"), dev("b", "B")];
    add_trusted_device(&mut list, dev("a", "A2"));
    assert_eq!(list.iter().map(|d| (d.id.as_str(), d.name.as_str())).collect::<Vec<_>>(), vec![("b", "B"), ("a", "A2")]);
    remove_trusted_device(&mut list, &"b".to_string());
    assert_eq!(list.len(), 1);
    remove_trusted_device(&mut list, &"zzz".to_string());
    assert_eq!(list.len(), 1);
}

#[test]
fn default_settings() {
    let s = AppSettings::default();
    assert_eq!((s.theme.as_str(), s.downloads_folder.as_str(), s.language.as_str()), ("system", "~/Downloads", "en"));
    assert!(!s.auto_accept_transfers && s.auto_update && s.animations_enabled && s.notifications_enabled);
    assert!(!s.start_minimized && !s.developer_mode && s.rgb_mode);
    assert_eq!((s.max_parallel_connections, s.transfer_engine_mode.as_str()), (8, "balanced"));
    assert!(s.auto_resume_transfers && !s.enable_folder_sync && !s.folder_sync_installed);
    let e = s.engine_settings();
    assert_eq!((e.max_parallel_connections, e.power_mode), (8, PowerMode::Balanced));
    let mut t = s.clone();
    t.transfer_engine_mode = "max_throughput".to_string();
    assert_eq!(t.engine_settings().power_mode, PowerMode::MaxThroughput);
}

#[test]
fn application_files() {
    assert_eq!(app_file("/home/u/.config", "", "settings.json"), "/home/u/.config/send2me/settings.json");
    assert_eq!(app_file("/home/u/.config/", "-dev", "sync.json"), "/home/u/.config/send2me-dev/sync.json");
    assert_eq!(OfflineLogger::new(".", "").journal_path, "./send2me/offline_actions.jsonl");
}

#[test]
fn journal_lines_skip_blank_ones() {
    let lines = OfflineLogger::journal_lines("{\"a\":1}\n\n   \r\n{\"b\":2}\r\n{\"c\":3}");
    assert_eq!(lines, vec!["{\"a\":1}", "{\"b\":2}", "{\"c\":3}"]);
    assert!(OfflineLogger::journal_lines("").is_empty());
    assert!(OfflineLogger::journal_lines("\n\u{3000}\n").is_empty());
    assert_eq!(OfflineLogger::journal_lines("x\n"), vec!["x"]);
}

#[test]
fn conflict_copy_name() {
    assert_eq!(ConflictResolver::conflict_copy_path("/s/report.pdf", "Laptop"), "/s/report (Laptop Conflicted Copy).pdf");
}

#[test]
fn discovery_accepts_only_four_alphanumerics() {
    assert!(Discovery::accepts(&beacon("n", "AB2C")));
    assert!(Discovery::accepts(&beacon("n", "ab2c")));
    assert!(!Discovery::accepts(&beacon("n", "AB2")));
    assert!(!Discovery::accepts(&beacon("n", "AB-C")));
    assert!(!Discovery::accepts(&beacon("n", "ABÇD")));
}

#[test]
fn bridge_results() {
    let logs = vec!["[Sender] start".to_string()];
    let r = bridge_result(None, None, 1, 2, logs.clone());
    assert!(!r.is_online);
    assert_eq!((r.latency_ms, r.route_type.as_str()), (0, "Offline / Disconnected"));
    assert_eq!(r.status_message, "Target peer unavailable or unreachable over network");
    let r = bridge_result(Some(0), None, 1, 2, logs.clone());
    assert_eq!((r.latency_ms, r.route_type.as_str(), r.status_message.as_str()), (1, "Direct P2P (UDP / Local)", "Connected (Direct ALPN)"));
    let remote = TestBridgeDiagnosticResponse {
        success: true,
        remote_device_name: "PC".into(),
        remote_os: "linux".into(),
        remote_folders_ok: 1,
        remote_folders_total: 1,
        remote_disk_free_mb: 10240,
        remote_logs: vec!["[Receiver] ok".to_string()],
    };
    let r = bridge_result(Some(35), Some(remote), 1, 2, logs);
    assert_eq!((r.latency_ms, r.route_type.as_str()), (35, "Relayed P2P Tunnel"));
    assert_eq!(r.status_message, "Live Bridge Active & Verified (Both Sides Passed)");
    assert_eq!(r.logs, vec!["[Sender] start".to_string(), "[Receiver] ok".to_string()]);
    assert_eq!((r.folders_healthy, r.folders_total), (1, 2));
}

#[test]
fn healthy_folder_count() {
    let statuses = vec!["active".to_string(), "active".to_string(), "Idle".to_string()];
    assert_eq!(healthy_folders(&statuses, &vec![true, false, true]), 1);
    assert_eq!(healthy_folders(&vec![], &vec![]), 0);
}
