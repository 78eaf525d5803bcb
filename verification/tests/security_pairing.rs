use send2me::pairing::{connection_kind, device_pairing_code, next_publish_backoff, ConnectionKind};
use send2me::pairing::{
    code_seed, derive_pairing_code, is_valid_beacon_code, DiscoveryBeacon, Pairing, PeerRegistry,
    ALPHABET,
};
use send2me::security::{
    increment_tamper_strikes, legacy_state_texts, open_security_blob, seal_security_blob, security_key, spawn,
    tamper_exempt, tamper_response, BlobOutcome, SecurityState, KEY_SALT, MAX_TAMPER_STRIKES,
};

fn beacon(node: &str, code: &str) -> DiscoveryBeacon {
    DiscoveryBeacon {
        node_id: node.to_string(),
        pairing_code: code.to_string(),
        hostname: "h".to_string(),
        os: "linux".to_string(),
        device_type: "desktop".to_string(),
    }
}

#[test]
fn typed_codes_are_normalised() {
    assert_eq!(Pairing::normalize_code("ab-12 o"), "AB2");
    assert_eq!(Pairing::normalize_code("k7m9"), "K7M9");
    assert_eq!(Pairing::normalize_code("0O1IL"), "");
    assert_eq!(Pairing::normalize_code(""), "");
}

#[test]
fn generated_codes_use_the_alphabet() {
    for _ in 0..50 {
        let c = Pairing::generate_code();
        assert_eq!(c.len(), 4);
        assert!(c.bytes().all(|b| ALPHABET.contains(&b)));
        assert_eq!(Pairing::normalize_code(&c), c);
        assert_eq!(Pairing::normalize_code(&c.to_lowercase()), c);
    }
}

#[test]
fn derived_code_is_blake3_prefix_in_hex() {
    let h = blake3::hash(b"machine-42");
    let expected = format!("{:02X}{:02X}", h.as_bytes()[0], h.as_bytes()[1]);
    assert_eq!(derive_pairing_code("machine-42"), expected);
    assert_ne!(derive_pairing_code("machine-43"), derive_pairing_code("machine-42"));
    assert_eq!(code_seed("AB2C"), *blake3::hash(b"AB2C").as_bytes());
}

#[test]
fn beacon_codes() {
    assert!(is_valid_beacon_code("ab2C"));
    assert!(!is_valid_beacon_code("ab2"));
    assert!(!is_valid_beacon_code("ab2C5"));
    assert!(!is_valid_beacon_code("a b2"));
}

#[test]
fn registry_keeps_fresh_peers_by_code() {
    let mut reg = PeerRegistry::new();
    reg.observe(beacon("n1", "AAAA"), 1_000);
    reg.observe(beacon("n2", "BBBB"), 5_000);
    assert_eq!(reg.node_for_code(&"AAAA".to_string()).as_deref(), Some("n1"));
    reg.observe(beacon("n3", "AAAA"), 6_000);
    assert_eq!(reg.node_for_code(&"AAAA".to_string()).as_deref(), Some("n3"));
    // n2 was last seen at 5000: at 14000 it has expired (9 s).
    reg.observe(beacon("n4", "CCCC"), 14_000);
    assert!(reg.node_for_code(&"BBBB".to_string()).is_none());
    assert_eq!(reg.node_for_code(&"AAAA".to_string()).as_deref(), Some("n3"));
    assert!(reg.node_for_code(&"ZZZZ".to_string()).is_none());
}

#[test]
fn state_key_is_blake3_of_salt() {
    assert_eq!(security_key(), *blake3::hash(KEY_SALT.as_bytes()).as_bytes());
}

#[test]
fn sealed_state_reopens_and_detects_tampering() {
    let key = security_key();
    let payload = br#"{"status":"active","last_online":123}"#;
    let blob = seal_security_blob(&key, payload).unwrap();
    assert_eq!(blob.len(), payload.len() + 28);
    assert_eq!(open_security_blob(&key, &blob), BlobOutcome::Opened(payload.to_vec()));
    let mut bad = blob.clone();
    let last = bad.len() - 1;
    bad[last] ^= 1;
    assert_eq!(open_security_blob(&key, &bad), BlobOutcome::Tampered);
    let other_key = [7u8; 32];
    assert_eq!(open_security_blob(&other_key, &blob), BlobOutcome::Tampered);
    assert_eq!(open_security_blob(&key, &[]), BlobOutcome::Empty);
    assert_eq!(open_security_blob(&key, &blob[..12]), BlobOutcome::Tampered);
    // Two seals of one payload differ (fresh nonces) but both open.
    let again = seal_security_blob(&key, payload).unwrap();
    assert_ne!(again, blob);
    assert_eq!(open_security_blob(&key, &again), BlobOutcome::Opened(payload.to_vec()));
}

#[test]
fn tamper_handling() {
    assert_eq!(increment_tamper_strikes(None), MAX_TAMPER_STRIKES);
    assert_eq!(increment_tamper_strikes(Some(0)), 1);
    assert_eq!(increment_tamper_strikes(Some(2)), 3);
    assert_eq!(increment_tamper_strikes(Some(u32::MAX)), 0);
    assert!(tamper_exempt(true, ""));
    assert!(tamper_exempt(false, "-dev"));
    assert!(!tamper_exempt(false, "-prod"));
    assert!(!tamper_exempt(false, ""));
    let s = tamper_response(3, 99);
    assert_eq!((s.status.as_str(), s.last_online), ("banned", 0));
    let s = tamper_response(2, 99);
    assert_eq!((s.status.as_str(), s.last_online), ("active", 99));
    let a = SecurityState::active(5);
    assert_eq!((a.status.as_str(), a.last_online), ("active", 5));
    spawn();
}

fn code_of(id: &str) -> String {
    let h = blake3::hash(id.as_bytes());
    h.to_hex()[0..4].to_uppercase()
}

#[test]
fn device_codes() {
    assert_eq!(device_pairing_code(Some("GAURAV"), None, None, ""), "5737");
    assert_eq!(device_pairing_code(Some("GAURAV"), Some("g"), None, "-dev"), code_of("GAURAV-g-dev"));
    assert_eq!(device_pairing_code(None, None, None, ""), code_of("Unknown-User"));
    assert_eq!(device_pairing_code(Some("PC"), Some("ann"), Some("guid-1"), "-2"), code_of("guid-1-2"));
    assert_eq!(device_pairing_code(Some("PC"), Some("ann"), Some(""), ""), code_of("PC-ann"));
}

#[test]
fn connection_kinds_and_backoff() {
    assert_eq!(connection_kind(b"send2me-drive/1"), ConnectionKind::Drive);
    assert_eq!(connection_kind(b"send2me-sync/1"), ConnectionKind::Sync);
    assert_eq!(connection_kind(b"send2me/1"), ConnectionKind::Transfer);
    assert_eq!(connection_kind(b""), ConnectionKind::Transfer);
    assert_eq!(next_publish_backoff(2), 4);
    assert_eq!(next_publish_backoff(8), 16);
    assert_eq!(next_publish_backoff(16), 30);
    assert_eq!(next_publish_backoff(30), 30);
}

#[test]
fn legacy_state_texts_pick_candidates() {
    let j = r#"{"status":"active","last_online":5}"#;
    assert_eq!(legacy_state_texts(j), (Some(j.to_string()), None));
    let two = format!("{}\nsignature", j);
    assert_eq!(legacy_state_texts(&two), (Some(two.clone()), Some(j.to_string())));
    assert_eq!(legacy_state_texts("abc\ndef\nghi"), (None, Some("abc".to_string())));
    assert_eq!(legacy_state_texts("{no key here}"), (None, None));
    assert_eq!(legacy_state_texts(""), (None, None));
    assert_eq!(legacy_state_texts("\n"), (None, Some(String::new())));
}
