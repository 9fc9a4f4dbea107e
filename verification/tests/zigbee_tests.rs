use std::collections::HashMap;

use comsrv_protocols::address::{ProtocolAddress, ZigbeeAddress};
use comsrv_protocols::point::{PointConfig, PointType};
use comsrv_protocols::zigbee::{build_point_lookup, lookup_key, resolve_report};

fn make_test_point(id: u32, ieee: u64, ep: u8, cluster: u16, attr: u16) -> PointConfig {
    PointConfig {
        id,
        point_type: PointType::Telemetry,
        name: Some(format!("test_point_{id}")),
        address: ProtocolAddress::Zigbee(ZigbeeAddress {
            ieee_address: ieee,
            endpoint: ep,
            cluster_id: cluster,
            attribute_id: attr,
        }),
        enabled: true,
    }
}

#[test]
fn test_build_point_lookup() {
    let points = vec![
        make_test_point(1, 0x00124B0018ED1234, 1, 0x0402, 0x0000),
        make_test_point(2, 0x00124B0018ED1234, 1, 0x0405, 0x0000),
        make_test_point(3, 0x00124B0018ED5678, 2, 0x0006, 0x0000),
    ];

    let lookup = build_point_lookup(&points);
    assert_eq!(lookup.len(), 3);

    let key = lookup_key(0x00124B0018ED1234, 1, 0x0402, 0x0000);
    assert!(lookup.contains_key(&key));
    assert_eq!(lookup[&key].0, 1);
}

#[test]
fn test_build_point_lookup_empty() {
    let points: Vec<PointConfig> = vec![];
    let lookup = build_point_lookup(&points);
    assert!(lookup.is_empty());
}

#[test]
fn test_build_point_lookup_duplicate_key() {
    // Two points with the same (ieee, ep, cluster, attr): the later one wins.
    let points = vec![
        make_test_point(1, 0x00124B0018ED1234, 1, 0x0402, 0x0000),
        make_test_point(2, 0x00124B0018ED1234, 1, 0x0402, 0x0000),
    ];
    let lookup = build_point_lookup(&points);
    assert_eq!(lookup.len(), 1);
    let key = lookup_key(0x00124B0018ED1234, 1, 0x0402, 0x0000);
    assert_eq!(lookup[&key].0, 2);
}

#[test]
fn test_process_attribute_report_unmapped() {
    let lookup = HashMap::new();
    assert!(resolve_report(&lookup, 0x00124B0018ED1234, 1, 0x0402, 0x0000).is_none());
}

#[test]
fn resolve_report_finds_configured_point() {
    let points = vec![make_test_point(1, 0x00124B0018ED1234, 1, 0x0402, 0x0000)];
    let lookup = build_point_lookup(&points);
    assert_eq!(
        resolve_report(&lookup, 0x00124B0018ED1234, 1, 0x0402, 0x0000),
        Some((1, PointType::Telemetry))
    );
    assert_eq!(resolve_report(&lookup, 0x00124B0018ED1234, 2, 0x0402, 0x0000), None);
}

#[test]
fn non_zigbee_points_are_ignored() {
    let mut p = make_test_point(9, 1, 1, 1, 1);
    p.address = ProtocolAddress::Generic("x".to_string());
    assert!(build_point_lookup(&[p]).is_empty());
}

#[test]
fn lookup_key_layout() {
    assert_eq!(lookup_key(0, 0, 0, 1), 1);
    assert_eq!(lookup_key(0, 0, 1, 0), 0x1_0000);
    assert_eq!(lookup_key(0, 1, 0, 0), 0x1_0000_0000);
    assert_eq!(lookup_key(1, 0, 0, 0), 0x100_0000_0000);
    assert_eq!(lookup_key(u64::MAX, 255, 0xFFFF, 0xFFFF), (1u128 << 104) - 1);
}
