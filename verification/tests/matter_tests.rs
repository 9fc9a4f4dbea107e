use comsrv_protocols::address::{MatterAddress, ProtocolAddress};
use comsrv_protocols::matter::{
    build_invoke_request_payload, build_write_request_payload, next_exchange_id, MatterFrame,
    MatterMessageType, MatterPointError, MatterPoints,
};
use comsrv_protocols::point::{PointConfig, PointType};

fn matter_point(id: u32, point_type: PointType, endpoint: u16, cluster_id: u32, attribute_id: u32) -> PointConfig {
    PointConfig {
        id,
        point_type,
        name: None,
        address: ProtocolAddress::Matter(MatterAddress { endpoint, cluster_id, attribute_id }),
        enabled: true,
    }
}

#[test]
fn test_matter_frame_encode_decode() {
    let frame = MatterFrame {
        message_type: MatterMessageType::StatusReport,
        exchange_id: 42,
        payload: vec![1, 2, 3, 4],
    };

    let encoded = frame.encode();
    assert_eq!(encoded.len(), 5 + 4);

    let decoded = MatterFrame::decode(&encoded).unwrap();
    assert_eq!(decoded.exchange_id, 42);
    assert_eq!(decoded.payload, vec![1, 2, 3, 4]);
}

#[test]
fn test_matter_frame_decode_too_short() {
    let buf = [0u8; 3];
    assert!(MatterFrame::decode(&buf).is_none());
}

#[test]
fn test_matter_frame_decode_truncated_payload() {
    let buf = [0x01, 0x00, 0x00, 0x0A, 0x00, 0x01, 0x02];
    assert!(MatterFrame::decode(&buf).is_none());
}

#[test]
fn test_build_invoke_request_payload() {
    let payload = build_invoke_request_payload(1, 0x0006, 1, 1.0f64.to_le_bytes());
    assert_eq!(payload.len(), 18);

    let endpoint = u16::from_le_bytes([payload[0], payload[1]]);
    let cluster = u32::from_le_bytes([payload[2], payload[3], payload[4], payload[5]]);
    let command = u32::from_le_bytes([payload[6], payload[7], payload[8], payload[9]]);

    assert_eq!(endpoint, 1);
    assert_eq!(cluster, 0x0006);
    assert_eq!(command, 1);
}

#[test]
fn test_build_write_request_payload() {
    let payload = build_write_request_payload(2, 0x0201, 0x0012, 22.5f64.to_le_bytes());
    assert_eq!(payload.len(), 18);

    let endpoint = u16::from_le_bytes([payload[0], payload[1]]);
    let cluster = u32::from_le_bytes([payload[2], payload[3], payload[4], payload[5]]);
    let attr = u32::from_le_bytes([payload[6], payload[7], payload[8], payload[9]]);
    let value = f64::from_le_bytes([
        payload[10], payload[11], payload[12], payload[13], payload[14], payload[15], payload[16],
        payload[17],
    ]);

    assert_eq!(endpoint, 2);
    assert_eq!(cluster, 0x0201);
    assert_eq!(attr, 0x0012);
    assert!((value - 22.5).abs() < f64::EPSILON);
}

#[test]
fn test_matter_frame_encode_empty_payload() {
    let frame = MatterFrame {
        message_type: MatterMessageType::StatusReport,
        exchange_id: 0,
        payload: vec![],
    };

    let encoded = frame.encode();
    assert_eq!(encoded.len(), 5);
    assert_eq!(encoded[0], MatterMessageType::StatusReport.code());
    assert_eq!(u16::from_le_bytes([encoded[1], encoded[2]]), 0);
    assert_eq!(u16::from_le_bytes([encoded[3], encoded[4]]), 0);

    let decoded = MatterFrame::decode(&encoded).unwrap();
    assert_eq!(decoded.exchange_id, 0);
    assert!(decoded.payload.is_empty());
}

#[test]
fn test_matter_frame_all_message_types() {
    let types = [
        MatterMessageType::StatusReport,
        MatterMessageType::WriteRequest,
        MatterMessageType::InvokeRequest,
    ];

    for msg_type in types {
        let frame = MatterFrame { message_type: msg_type, exchange_id: 1000, payload: vec![0xAA, 0xBB] };

        let encoded = frame.encode();
        assert_eq!(encoded[0], msg_type.code());
        assert_eq!(encoded.len(), 7);

        let decoded = MatterFrame::decode(&encoded).unwrap();
        assert_eq!(decoded.exchange_id, 1000);
        assert_eq!(decoded.payload, vec![0xAA, 0xBB]);
    }
}

#[test]
fn test_build_write_request_negative_value() {
    let payload = build_write_request_payload(1, 0x0201, 0x0012, (-10.5f64).to_le_bytes());
    assert_eq!(payload.len(), 18);
    let value = f64::from_le_bytes([
        payload[10], payload[11], payload[12], payload[13], payload[14], payload[15], payload[16],
        payload[17],
    ]);
    assert!((value - (-10.5)).abs() < f64::EPSILON);
    let endpoint = u16::from_le_bytes([payload[0], payload[1]]);
    let cluster = u32::from_le_bytes([payload[2], payload[3], payload[4], payload[5]]);
    let attr = u32::from_le_bytes([payload[6], payload[7], payload[8], payload[9]]);
    assert_eq!(endpoint, 1);
    assert_eq!(cluster, 0x0201);
    assert_eq!(attr, 0x0012);
}

#[test]
fn message_codes_and_exchange_ids() {
    assert_eq!(MatterMessageType::StatusReport.code(), 0x01);
    assert_eq!(MatterMessageType::WriteRequest.code(), 0x06);
    assert_eq!(MatterMessageType::InvokeRequest.code(), 0x08);
    assert_eq!(next_exchange_id(7), (7, 8));
    assert_eq!(next_exchange_id(u16::MAX), (u16::MAX, 0));
    let frame = MatterFrame {
        message_type: MatterMessageType::InvokeRequest,
        exchange_id: 0x1234,
        payload: vec![9],
    };
    assert_eq!(frame.encode(), vec![0x08, 0x34, 0x12, 0x01, 0x00, 0x09]);
    // Bytes past the announced payload are ignored.
    let decoded = MatterFrame::decode(&[0x06, 0x01, 0x00, 0x01, 0x00, 0x55, 0x66]).unwrap();
    assert_eq!(decoded.payload, vec![0x55]);
    assert_eq!(decoded.message_type, MatterMessageType::StatusReport);
}

#[test]
fn test_matter_channel_with_points() {
    let points = vec![
        matter_point(100, PointType::Telemetry, 1, 0x0402, 0x0000),
        matter_point(200, PointType::Control, 1, 0x0006, 0x0000),
        matter_point(300, PointType::Adjustment, 2, 0x0201, 0x0012),
    ];
    let table = MatterPoints::new().with_points(points);
    assert_eq!(table.len(), 3);
    assert!(table.contains(100));
    assert!(table.contains(200));
    assert!(table.contains(300));
    let p100 = table.get(100).unwrap();
    assert_eq!(p100.id, 100);
    match &p100.address {
        ProtocolAddress::Matter(addr) => {
            assert_eq!(addr.endpoint, 1);
            assert_eq!(addr.cluster_id, 0x0402);
            assert_eq!(addr.attribute_id, 0x0000);
        },
        _ => panic!("Expected Matter address"),
    }
}

#[test]
fn matter_points_resolve_and_replace() {
    let mut other = matter_point(7, PointType::Signal, 0, 0, 0);
    other.address = ProtocolAddress::Generic("x".to_string());
    let points = vec![
        matter_point(1, PointType::Control, 1, 0x0006, 0),
        matter_point(1, PointType::Control, 3, 0x0008, 4),
        other,
    ];
    let table = MatterPoints::new().with_points(points);
    assert_eq!(table.len(), 2);
    assert_eq!(table.resolve_point_address(1), Ok((3, 0x0008, 4)));
    assert_eq!(table.resolve_point_address(7), Err(MatterPointError::NotMatter(7)));
    assert_eq!(table.resolve_point_address(9), Err(MatterPointError::UnknownPoint(9)));
}
