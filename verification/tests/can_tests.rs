use comsrv_protocols::can::{
    decode_point, extract_field, CanChannelParamsConfig, CanConfig, CanDataType, CanDecodeError,
    CanFrameCache, CanFrameData, CanPoint, CanValue, LynkCanId, PointManager,
};
use comsrv_protocols::point::PointType;

fn point(id: u32, can_id: u32, off: u8, pos: u8, len: u8, t: CanDataType) -> CanPoint {
    CanPoint {
        point_id: id,
        point_type: PointType::Telemetry,
        can_id,
        byte_offset: off,
        bit_position: pos,
        bit_length: len,
        data_type: t,
    }
}

#[test]
fn can_config_defaults() {
    let c = CanConfig::default();
    assert_eq!(c.can_interface, "can0");
    assert_eq!(c.bitrate, 250000);
    assert_eq!(c.connect_timeout_ms, 3000);
    assert_eq!(c.read_timeout_ms, 3000);
    assert_eq!(c.retry_interval_ms, 2000);
    assert_eq!(c.rx_poll_interval_ms, 50);
    assert_eq!(c.data_read_interval_ms, 1000);
    assert_eq!(CanDataType::default(), CanDataType::UInt16);
    let p = CanChannelParamsConfig {
        device: "vcan0".to_string(),
        bitrate: 500000,
        connect_timeout_ms: 1,
        read_timeout_ms: 2,
        retry_interval_ms: 3,
        rx_poll_interval_ms: 4,
        data_read_interval_ms: 5,
    };
    let c = p.to_config();
    assert_eq!(c.can_interface, "vcan0");
    assert_eq!(c.bitrate, 500000);
    assert_eq!(c.data_read_interval_ms, 5);
}

#[test]
fn frame_data_keeps_eight_bytes() {
    let f = CanFrameData::from_slice(&[1, 2, 3, 4, 5, 6, 7, 8, 9, 10]);
    assert_eq!(f.as_slice(), &[1, 2, 3, 4, 5, 6, 7, 8]);
    let f = CanFrameData::from_slice(&[1, 2]);
    assert_eq!(f.as_slice(), &[1, 2]);
    assert!(CanFrameData::default().as_slice().is_empty());
}

#[test]
fn frame_cache_update_and_get() {
    let mut c = CanFrameCache::new();
    assert!(c.get(0x351).is_none());
    c.update(0x351, &[0x10, 0x20]);
    c.update(0x355, &[1, 2, 3]);
    c.update(0x351, &[0x30]);
    assert_eq!(c.get(0x351), Some(&[0x30u8][..]));
    assert_eq!(c.get(0x355), Some(&[1u8, 2, 3][..]));
}

#[test]
fn lynk_ids() {
    assert_eq!(LynkCanId::from_u32(0x351), Some(LynkCanId::BatteryLimits));
    assert_eq!(LynkCanId::from_u32(0x373), Some(LynkCanId::ProtocolVersion));
    assert_eq!(LynkCanId::from_u32(0x352), None);
    assert!(LynkCanId::is_lynk_id(0x35A));
    assert!(!LynkCanId::is_lynk_id(0x100));
    assert_eq!(LynkCanId::ManufacturerName.code(), 0x35E);
}

#[test]
fn extract_field_cases() {
    let data = [0b1011_0110u8, 0x34, 0x12, 0x78, 0x56, 0, 0, 0];
    assert_eq!(extract_field(&data, 0, 1, 2).unwrap().as_slice(), &[0b11]);
    assert_eq!(extract_field(&data, 0, 6, 2).unwrap().as_slice(), &[0b10]);
    assert_eq!(extract_field(&data, 1, 0, 16).unwrap().as_slice(), &[0x34, 0x12]);
    assert_eq!(extract_field(&data, 0, 0, 64).unwrap().as_slice(), &data);
    assert_eq!(
        extract_field(&data, 8, 0, 8).unwrap_err(),
        CanDecodeError::ByteOffsetOutOfRange { offset: 8, data_len: 8 }
    );
    assert_eq!(
        extract_field(&data, 0, 7, 2).unwrap_err(),
        CanDecodeError::InvalidBitPosition { bit_position: 7, bit_length: 2 }
    );
    assert_eq!(
        extract_field(&data, 0, 1, 16).unwrap_err(),
        CanDecodeError::InvalidBitPosition { bit_position: 1, bit_length: 16 }
    );
    assert_eq!(
        extract_field(&data, 6, 0, 32).unwrap_err(),
        CanDecodeError::FieldPastEnd { offset: 6, bit_length: 32 }
    );
    assert_eq!(extract_field(&data, 0, 0, 4).unwrap_err(), CanDecodeError::UnsupportedBitLength(4));
}

#[test]
fn decode_point_types() {
    let data = [0xFE, 0xFF, 0x10, 0x27, 0x00, 0x00, 0x00, 0x00];
    assert_eq!(
        decode_point(&point(1, 1, 0, 0, 16, CanDataType::UInt16), &data),
        Ok(CanValue::Integer(0xFFFE))
    );
    assert_eq!(
        decode_point(&point(1, 1, 0, 0, 16, CanDataType::Int16), &data),
        Ok(CanValue::Integer(-2))
    );
    assert_eq!(
        decode_point(&point(1, 1, 2, 0, 32, CanDataType::UInt32), &data),
        Ok(CanValue::Integer(10000))
    );
    assert_eq!(
        decode_point(&point(1, 1, 0, 0, 32, CanDataType::Int32), &data),
        Ok(CanValue::Integer(0x2710FFFE))
    );
    assert_eq!(
        decode_point(&point(1, 1, 2, 0, 8, CanDataType::UInt8), &data),
        Ok(CanValue::Integer(0x10))
    );
    let f = 12.5f32.to_le_bytes();
    assert_eq!(
        decode_point(&point(1, 1, 0, 0, 32, CanDataType::Float32), &f),
        Ok(CanValue::Float32Bits(12.5f32.to_bits()))
    );
    assert_eq!(
        decode_point(&point(1, 1, 0, 0, 8, CanDataType::UInt16), &data),
        Err(CanDecodeError::FieldTooShort { data_type: CanDataType::UInt16, got: 1 })
    );
    let text = *b"LYNK\0\0\0\0";
    assert_eq!(
        decode_point(&point(1, 1, 0, 0, 64, CanDataType::Ascii), &text),
        Ok(CanValue::Text("LYNK".to_string()))
    );
    let alarm = [0b0000_1100u8];
    assert_eq!(
        decode_point(&point(1, 1, 0, 2, 2, CanDataType::UInt8), &alarm),
        Ok(CanValue::Integer(3))
    );
}

#[test]
fn point_manager_applies_mappings() {
    let mut m = PointManager::new();
    m.add_point(point(1, 0x351, 0, 0, 16, CanDataType::UInt16));
    m.add_point(point(2, 0x355, 0, 0, 16, CanDataType::UInt16));
    m.add_point(point(3, 0x351, 7, 0, 16, CanDataType::UInt16));
    let mut ids = m.point_ids();
    ids.sort();
    assert_eq!(ids, vec![1, 2, 3]);
    let mut cache = CanFrameCache::new();
    cache.update(0x351, &[0x10, 0x00, 0, 0, 0, 0, 0, 0]);
    let values = m.apply_mappings(&cache).unwrap();
    assert_eq!(values.len(), 1);
    assert_eq!(values.get(&1), Some(&CanValue::Integer(16)));
}
