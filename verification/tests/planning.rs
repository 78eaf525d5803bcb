use send2me::chunking::{
    estimated_parts, plan_chunks, power_mode_from_name, DynamicChunker, EngineSettings,
    NetworkTopology, NetworkTopologyDetector, PeerAddress, PowerMode,
};

#[test]
fn chunker_never_returns_zero() {
    let s = EngineSettings { max_parallel_connections: 8, power_mode: PowerMode::Balanced };
    let n = DynamicChunker::calculate_chunk_count(0, NetworkTopology::Lan, &s);
    assert!(n >= 1);
}

#[test]
fn chunker_scales_and_caps() {
    let mib = 1024 * 1024;
    let s = EngineSettings { max_parallel_connections: 8, power_mode: PowerMode::Balanced };
    assert_eq!(DynamicChunker::calculate_chunk_count(100 * mib, NetworkTopology::Lan, &s), 6);
    assert_eq!(DynamicChunker::calculate_chunk_count(10_000 * mib, NetworkTopology::Lan, &s), 8);
    let m = EngineSettings { max_parallel_connections: 200, power_mode: PowerMode::MaxThroughput };
    assert_eq!(DynamicChunker::calculate_chunk_count(10_000 * mib, NetworkTopology::Lan, &m), 128);
    assert_eq!(DynamicChunker::calculate_chunk_count(10_000 * mib, NetworkTopology::Wan, &m), 32);
    let z = EngineSettings { max_parallel_connections: 0, power_mode: PowerMode::Medium };
    assert_eq!(DynamicChunker::calculate_chunk_count(10_000 * mib, NetworkTopology::Wan, &z), 1);
    let d = EngineSettings::default();
    assert_eq!(d.max_parallel_connections, 8);
    assert_eq!(d.power_mode, PowerMode::Balanced);
}

#[test]
fn chunk_plan_tiles_file() {
    let id = String::from("tx-1");
    let plan = plan_chunks(&id, 10, 3);
    let spans: Vec<(u64, u64)> = plan.iter().map(|c| (c.start_offset, c.chunk_size)).collect();
    assert_eq!(spans, vec![(0, 4), (4, 4), (8, 2)]);
    assert!(plan.iter().enumerate().all(|(i, c)| c.chunk_index == i && c.transfer_id == "tx-1"));
    let empty = plan_chunks(&id, 0, 1);
    assert_eq!(empty.len(), 1);
    assert_eq!((empty[0].start_offset, empty[0].chunk_size), (0, 0));
}

#[test]
fn part_estimate() {
    assert_eq!(estimated_parts(0, 8), 1);
    assert_eq!(estimated_parts(5 * 1024 * 1024 + 1, 8), 2);
    assert_eq!(estimated_parts(1 << 40, 8), 8);
    assert_eq!(estimated_parts(10, 0), 0);
}

#[test]
fn power_modes_by_name() {
    assert_eq!(power_mode_from_name("max_throughput"), PowerMode::MaxThroughput);
    assert_eq!(power_mode_from_name("medium"), PowerMode::Medium);
    assert_eq!(power_mode_from_name("balanced"), PowerMode::Balanced);
    assert_eq!(power_mode_from_name("MEDIUM"), PowerMode::Balanced);
}

#[test]
fn topology_from_addresses() {
    let lan = |a| NetworkTopologyDetector::classify(&a) == NetworkTopology::Lan;
    assert!(lan(PeerAddress::V4([192, 168, 1, 4])));
    assert!(lan(PeerAddress::V4([10, 0, 0, 1])));
    assert!(lan(PeerAddress::V4([172, 31, 0, 1])));
    assert!(!lan(PeerAddress::V4([172, 32, 0, 1])));
    assert!(lan(PeerAddress::V4([127, 0, 0, 1])));
    assert!(!lan(PeerAddress::V4([8, 8, 8, 8])));
    assert!(lan(PeerAddress::V6([0, 0, 0, 0, 0, 0, 0, 1])));
    assert!(lan(PeerAddress::V6([0xfe80, 0, 0, 0, 0, 0, 0, 7])));
    assert!(lan(PeerAddress::V6([0xfd12, 0, 0, 0, 0, 0, 0, 7])));
    assert!(!lan(PeerAddress::V6([0x2001, 0xdb8, 0, 0, 0, 0, 0, 1])));
}
