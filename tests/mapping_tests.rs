use localpacketdump::address::IpAddress;
use localpacketdump::capture::{CaptureAction, CaptureEvent, CaptureState};
use localpacketdump::mapping::{InterfaceMapping, MappingEntry, MappingStore};

fn a(n: u8) -> IpAddress {
    IpAddress::V4(u32::from_be_bytes([10, 0, 0, n]))
}

fn mapping(wan0: &str, wan1: &str, rows: &[(u8, &str)]) -> InterfaceMapping {
    let entries = rows.iter().map(|(n, w)| MappingEntry { local: a(*n), wan: w.to_string() }).collect();
    InterfaceMapping::new(wan0.to_string(), wan1.to_string(), entries)
}

#[test]
fn unknown_until_first_mapping() {
    let store = MappingStore::new();
    assert_eq!(store.resolve_interface(a(1)), "unknown");
}

#[test]
fn resolve_follows_table_with_wan0_fallback() {
    let mut store = MappingStore::new();
    store.apply_refresh(Some(mapping("pppoe0", "lte0", &[(1, "wan1"), (2, "wan0"), (3, "other")])));
    assert_eq!(store.resolve_interface(a(1)), "lte0");
    assert_eq!(store.resolve_interface(a(2)), "pppoe0");
    assert_eq!(store.resolve_interface(a(3)), "pppoe0");
    assert_eq!(store.resolve_interface(a(4)), "pppoe0");
}

#[test]
fn failed_refresh_keeps_resolution() {
    let mut store = MappingStore::new();
    store.apply_refresh(None);
    assert_eq!(store.resolve_interface(a(1)), "unknown");
    store.apply_refresh(Some(mapping("pppoe0", "lte0", &[(1, "wan1")])));
    let before: Vec<String> = (1..5).map(|n| store.resolve_interface(a(n))).collect();
    store.apply_refresh(None);
    let after: Vec<String> = (1..5).map(|n| store.resolve_interface(a(n))).collect();
    assert_eq!(before, after);
}

#[test]
fn refresh_replaces_mapping_whole() {
    let mut store = MappingStore::new();
    store.apply_refresh(Some(mapping("pppoe0", "lte0", &[(1, "wan1")])));
    store.apply_refresh(Some(mapping("fiber", "cable", &[(2, "wan1")])));
    assert_eq!(store.resolve_interface(a(1)), "fiber");
    assert_eq!(store.resolve_interface(a(2)), "cable");
}

#[test]
fn capture_state_machine() {
    let s = CaptureState::initial();
    assert_eq!(s, CaptureState::Searching);
    assert_eq!(s.step(CaptureEvent::OpenFailed), (CaptureState::Searching, CaptureAction::Backoff));
    let (s, act) = s.step(CaptureEvent::ChannelOpened);
    assert_eq!((s, act), (CaptureState::Capturing, CaptureAction::Receive));
    assert_eq!(s.step(CaptureEvent::FrameReceived), (CaptureState::Capturing, CaptureAction::ProcessFrame));
    assert_eq!(s.step(CaptureEvent::ReceiveFailed), (CaptureState::Searching, CaptureAction::Backoff));
}
