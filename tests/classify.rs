use localpacketdump::address::{Cidr, IpAddress, LocalNetworks};
use localpacketdump::frame::{parse_frame, ParsedFrame};
use localpacketdump::mapping::{InterfaceMapping, MappingEntry, MappingStore};
use localpacketdump::resolver::{attribute, classify, process_frame};
use localpacketdump::window::{Direction, TrafficKey, WindowAggregator};

fn v4(a: u8, b: u8, c: u8, d: u8) -> IpAddress {
    IpAddress::V4(u32::from_be_bytes([a, b, c, d]))
}

fn v4_frame(src: [u8; 4], dst: [u8; 4], ip_len: usize) -> Vec<u8> {
    let mut f = vec![0u8; 14 + ip_len.max(20)];
    f[12] = 0x08;
    f[13] = 0x00;
    f[14] = 0x45;
    f[26..30].copy_from_slice(&src);
    f[30..34].copy_from_slice(&dst);
    f.truncate(14 + ip_len);
    f
}

fn v6_frame(src: u128, dst: u128, ip_len: usize) -> Vec<u8> {
    let mut f = vec![0u8; 14 + ip_len.max(40)];
    f[12] = 0x86;
    f[13] = 0xdd;
    f[14] = 0x60;
    f[22..38].copy_from_slice(&src.to_be_bytes());
    f[38..54].copy_from_slice(&dst.to_be_bytes());
    f.truncate(14 + ip_len);
    f
}

fn local_nets(texts: &[&str]) -> LocalNetworks {
    let v: Vec<String> = texts.iter().map(|t| t.to_string()).collect();
    LocalNetworks::from_texts(&v)
}

fn wan_store(entries: Vec<(IpAddress, &str)>) -> MappingStore {
    let mut store = MappingStore::new();
    let es = entries
        .into_iter()
        .map(|(a, w)| MappingEntry { local: a, wan: w.to_string() })
        .collect();
    store.apply_refresh(Some(InterfaceMapping::new("eth-a".to_string(), "eth-b".to_string(), es)));
    store
}

#[test]
fn upload_frame_is_keyed_by_destination_and_source_interface() {
    let nets = local_nets(&["10.0.0.0/24"]);
    let frame = v4_frame([10, 0, 0, 5], [93, 184, 216, 34], 150);
    let parsed = parse_frame(&frame).unwrap();
    assert_eq!(parsed, ParsedFrame { source: v4(10, 0, 0, 5), destination: v4(93, 184, 216, 34), length: 150 });

    let empty = MappingStore::new();
    let a = attribute(&nets, &empty, &parsed).unwrap();
    assert_eq!(a.direction, Direction::Upload);
    assert_eq!(a.key.remote, v4(93, 184, 216, 34));
    assert_eq!(a.key.interface, empty.resolve_interface(v4(10, 0, 0, 5)));
    assert_eq!(a.key.interface, "unknown");
    assert_eq!(a.length, 150);

    let store = wan_store(vec![(v4(10, 0, 0, 5), "wan1")]);
    let b = attribute(&nets, &store, &parsed).unwrap();
    assert_eq!(b.direction, Direction::Upload);
    assert_eq!(b.key.interface, store.resolve_interface(v4(10, 0, 0, 5)));
    assert_eq!(b.key.interface, "eth-b");
}

#[test]
fn download_frame_is_keyed_by_source() {
    let nets = local_nets(&["10.0.0.0/24"]);
    let frame = v4_frame([1, 1, 1, 1], [10, 0, 0, 9], 60);
    let store = wan_store(vec![]);
    let parsed = parse_frame(&frame).unwrap();
    let a = attribute(&nets, &store, &parsed).unwrap();
    assert_eq!(a.direction, Direction::Download);
    assert_eq!(a.key.remote, v4(1, 1, 1, 1));
    assert_eq!(a.key.interface, "eth-a");
    assert_eq!(a.length, 60);
}

#[test]
fn same_side_frames_touch_no_key() {
    let nets = local_nets(&["10.0.0.0/24"]);
    let store = wan_store(vec![]);
    let mut agg = WindowAggregator::new();
    let local = v4_frame([10, 0, 0, 1], [10, 0, 0, 2], 100);
    let remote = v4_frame([8, 8, 8, 8], [1, 1, 1, 1], 100);
    assert!(!process_frame(&mut agg, &nets, &store, &local));
    assert!(!process_frame(&mut agg, &nets, &store, &remote));
    assert_eq!(classify(&nets, v4(10, 0, 0, 1), v4(10, 0, 0, 2)), None);
    assert_eq!(classify(&nets, v4(8, 8, 8, 8), v4(1, 1, 1, 1)), None);
    let k = TrafficKey::new(v4(1, 1, 1, 1), "eth-a".to_string());
    assert_eq!(agg.counters_of(&k).download, 0);
    assert_eq!(agg.counters_of(&k).upload, 0);
    assert!(agg.snapshot_and_reset().is_empty());
}

#[test]
fn process_frame_counts_attributed_bytes() {
    let nets = local_nets(&["10.0.0.0/24"]);
    let store = wan_store(vec![(v4(10, 0, 0, 5), "wan1")]);
    let mut agg = WindowAggregator::new();
    assert!(process_frame(&mut agg, &nets, &store, &v4_frame([10, 0, 0, 5], [93, 184, 216, 34], 150)));
    assert!(process_frame(&mut agg, &nets, &store, &v4_frame([93, 184, 216, 34], [10, 0, 0, 5], 40)));
    let snap = agg.snapshot_and_reset();
    assert_eq!(snap.len(), 1);
    assert_eq!(snap[0].key.remote, v4(93, 184, 216, 34));
    assert_eq!(snap[0].key.interface, "eth-b");
    assert_eq!(snap[0].download, 40);
    assert_eq!(snap[0].upload, 150);
}

#[test]
fn malformed_frames_are_dropped() {
    assert_eq!(parse_frame(&[]), None);
    assert_eq!(parse_frame(&[0u8; 13]), None);
    // v4 payload one byte short of a header
    assert_eq!(parse_frame(&v4_frame([1, 2, 3, 4], [5, 6, 7, 8], 19)), None);
    // v6 payload one byte short of a header
    assert_eq!(parse_frame(&v6_frame(1, 2, 39)), None);
    // ARP
    let mut arp = v4_frame([1, 2, 3, 4], [5, 6, 7, 8], 28);
    arp[13] = 0x06;
    assert_eq!(parse_frame(&arp), None);
}

#[test]
fn minimal_v4_and_v6_frames_parse() {
    let f = parse_frame(&v4_frame([192, 168, 1, 2], [172, 16, 0, 1], 20)).unwrap();
    assert_eq!(f.source, v4(192, 168, 1, 2));
    assert_eq!(f.destination, v4(172, 16, 0, 1));
    assert_eq!(f.length, 20);
    let s: u128 = 0x2001_0db8_0000_0000_0000_0000_0000_0001;
    let d: u128 = 0xfe80_0000_0000_0000_0000_0000_0000_00ff;
    let g = parse_frame(&v6_frame(s, d, 1200)).unwrap();
    assert_eq!(g.source, IpAddress::V6(s));
    assert_eq!(g.destination, IpAddress::V6(d));
    assert_eq!(g.length, 1200);
}

#[test]
fn range_texts_parse_and_bad_ones_are_skipped() {
    let nets = local_nets(&["10.40.0.0/20", "not-a-range", "fd00::/8", "192.168.1.7"]);
    assert_eq!(nets.ranges.len(), 3);
    assert_eq!(nets.ranges[0], Cidr { base: v4(10, 40, 0, 0), prefix: 20 });
    assert_eq!(nets.ranges[2], Cidr { base: v4(192, 168, 1, 7), prefix: 32 });
    assert!(nets.is_local(v4(10, 40, 15, 255)));
    assert!(!nets.is_local(v4(10, 40, 16, 0)));
    assert!(nets.is_local(v4(192, 168, 1, 7)));
    assert!(!nets.is_local(v4(192, 168, 1, 8)));
    assert!(nets.is_local(IpAddress::V6(0xfd12_0000_0000_0000_0000_0000_0000_0001)));
    assert!(!nets.is_local(IpAddress::V6(0xfe00_0000_0000_0000_0000_0000_0000_0001)));
}

#[test]
fn cidr_contains_edges() {
    let all = Cidr { base: v4(0, 0, 0, 0), prefix: 0 };
    assert!(all.contains(v4(255, 255, 255, 255)));
    assert!(!all.contains(IpAddress::V6(1)));
    let host = Cidr { base: v4(10, 0, 0, 5), prefix: 32 };
    assert!(host.contains(v4(10, 0, 0, 5)));
    assert!(!host.contains(v4(10, 0, 0, 4)));
    // base need not be aligned to the prefix
    let unaligned = Cidr { base: v4(10, 0, 0, 77), prefix: 24 };
    assert!(unaligned.contains(v4(10, 0, 0, 1)));
    let v6_host = Cidr { base: IpAddress::V6(u128::MAX), prefix: 128 };
    assert!(v6_host.contains(IpAddress::V6(u128::MAX)));
    assert!(!v6_host.contains(IpAddress::V6(u128::MAX - 1)));
}
