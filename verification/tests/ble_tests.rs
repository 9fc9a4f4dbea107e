use comsrv_protocols::ble::{
    encode_value, expand_uuid, parse_value, short_uuid_text, BleReading, UuidError,
};
use comsrv_protocols::point::{DataFormat, PointConfig, PointType};
use comsrv_protocols::address::{BleAddress, ProtocolAddress};
use comsrv_protocols::ble::{resolve_points, write_target, BleWriteError, BleWriteTarget, ResolvedBlePoint};

fn uuid_text(v: u128) -> String {
    uuid::Uuid::from_u128(v).to_string()
}

#[test]
fn test_expand_uuid_short() {
    let uuid = expand_uuid("180f").unwrap();
    assert_eq!(uuid_text(uuid), "0000180f-0000-1000-8000-00805f9b34fb");
}

#[test]
fn test_expand_uuid_short_uppercase() {
    let uuid = expand_uuid("180F").unwrap();
    assert_eq!(uuid_text(uuid), "0000180f-0000-1000-8000-00805f9b34fb");
}

#[test]
fn test_expand_uuid_short_with_prefix() {
    let uuid = expand_uuid("0x180f").unwrap();
    assert_eq!(uuid_text(uuid), "0000180f-0000-1000-8000-00805f9b34fb");
}

#[test]
fn test_expand_uuid_32bit() {
    let uuid = expand_uuid("0000180f").unwrap();
    assert_eq!(uuid_text(uuid), "0000180f-0000-1000-8000-00805f9b34fb");
}

#[test]
fn test_expand_uuid_full() {
    let uuid = expand_uuid("12345678-1234-1234-1234-123456789abc").unwrap();
    assert_eq!(uuid_text(uuid), "12345678-1234-1234-1234-123456789abc");
}

#[test]
fn test_expand_uuid_invalid() {
    assert!(expand_uuid("zzzz").is_err());
    assert!(expand_uuid("12345").is_err());
}

#[test]
fn test_expand_uuid_empty_string() {
    assert!(expand_uuid("").is_err());
}

#[test]
fn uuid_error_kinds_and_candidates() {
    assert_eq!(expand_uuid("zzzz"), Err(UuidError::InvalidShortUuid));
    assert_eq!(expand_uuid("zzzzzzzz"), Err(UuidError::Invalid32BitUuid));
    assert_eq!(expand_uuid("12345"), Err(UuidError::InvalidUuidLength));
    assert_eq!(
        short_uuid_text(" 0X2A19 ").unwrap(),
        "00002A19-0000-1000-8000-00805f9b34fb"
    );
    assert_eq!(short_uuid_text("abcd1234").unwrap(), "abcd1234-0000-1000-8000-00805f9b34fb");
    assert_eq!(short_uuid_text("abc"), Err(UuidError::InvalidUuidLength));
    assert_eq!(expand_uuid(" 2a19 ").unwrap(), 0x00002a19_0000_1000_8000_00805f9b34fb);
}

fn f64_of(r: Option<BleReading>) -> Option<f64> {
    r.map(|r| match r {
        BleReading::Bool(b) => if b { 1.0 } else { 0.0 },
        BleReading::Unsigned(u) => u as f64,
        BleReading::Signed(i) => i as f64,
        BleReading::Float32Bits(b) => f32::from_bits(b) as f64,
        BleReading::Float64Bits(b) => f64::from_bits(b),
    })
}

#[test]
fn test_parse_value_uint16() {
    let data = 1024u16.to_le_bytes();
    assert_eq!(f64_of(parse_value(&data, DataFormat::UInt16)), Some(1024.0));
}

#[test]
fn test_parse_value_int16() {
    let data = (-100i16).to_le_bytes();
    assert_eq!(f64_of(parse_value(&data, DataFormat::Int16)), Some(-100.0));
}

#[test]
fn test_parse_value_float32() {
    let data = 3.5f32.to_le_bytes();
    let result = f64_of(parse_value(&data, DataFormat::Float32));
    assert!((result.unwrap() - 3.5).abs() < 0.001);
}

#[test]
fn test_parse_value_bool() {
    assert_eq!(f64_of(parse_value(&[1], DataFormat::Bool)), Some(1.0));
    assert_eq!(f64_of(parse_value(&[0], DataFormat::Bool)), Some(0.0));
}

#[test]
fn test_parse_value_insufficient_bytes() {
    assert_eq!(parse_value(&[0], DataFormat::UInt16), None);
    assert_eq!(parse_value(&[0, 0], DataFormat::Float32), None);
}

#[test]
fn test_parse_value_uint32() {
    let data = 70000u32.to_le_bytes();
    assert_eq!(parse_value(&data, DataFormat::UInt32), Some(BleReading::Unsigned(70000)));
}

#[test]
fn test_parse_value_int32() {
    let data = (-50000i32).to_le_bytes();
    assert_eq!(parse_value(&data, DataFormat::Int32), Some(BleReading::Signed(-50000)));
}

#[test]
fn test_parse_value_float64() {
    let data = 2.5f64.to_le_bytes();
    assert_eq!(f64_of(parse_value(&data, DataFormat::Float64)), Some(2.5));
}

#[test]
fn test_parse_value_uint64() {
    let data = 1_000_000u64.to_le_bytes();
    assert_eq!(parse_value(&data, DataFormat::UInt64), Some(BleReading::Unsigned(1_000_000)));
}

#[test]
fn test_parse_value_int64() {
    let data = (-1_000_000i64).to_le_bytes();
    assert_eq!(parse_value(&data, DataFormat::Int64), Some(BleReading::Signed(-1_000_000)));
    let data = i64::MIN.to_le_bytes();
    assert_eq!(parse_value(&data, DataFormat::Int64), Some(BleReading::Signed(i64::MIN)));
}

#[test]
fn test_parse_value_string_returns_none() {
    assert_eq!(parse_value(b"hello", DataFormat::String), None);
}

#[test]
fn test_encode_value_uint16() {
    let bytes = encode_value(BleReading::Unsigned(1024), DataFormat::UInt16).unwrap();
    assert_eq!(bytes, 1024u16.to_le_bytes().to_vec());
}

#[test]
fn test_encode_value_float32() {
    let bytes = encode_value(BleReading::Float32Bits(3.5f32.to_bits()), DataFormat::Float32).unwrap();
    assert_eq!(bytes, (3.5f32).to_le_bytes().to_vec());
}

#[test]
fn test_encode_value_bool() {
    assert_eq!(encode_value(BleReading::Unsigned(1), DataFormat::Bool), Some(vec![1]));
    assert_eq!(encode_value(BleReading::Unsigned(0), DataFormat::Bool), Some(vec![0]));
    assert_eq!(encode_value(BleReading::Bool(true), DataFormat::Bool), Some(vec![1]));
    assert_eq!(encode_value(BleReading::Unsigned(5), DataFormat::Bool), Some(vec![1]));
}

#[test]
fn test_encode_value_int16() {
    let bytes = encode_value(BleReading::Signed(-300), DataFormat::Int16).unwrap();
    assert_eq!(bytes, (-300i16).to_le_bytes().to_vec());
}

#[test]
fn test_encode_value_uint32() {
    let bytes = encode_value(BleReading::Unsigned(70000), DataFormat::UInt32).unwrap();
    assert_eq!(bytes, 70000u32.to_le_bytes().to_vec());
}

#[test]
fn test_encode_value_int32() {
    let bytes = encode_value(BleReading::Signed(-50000), DataFormat::Int32).unwrap();
    assert_eq!(bytes, (-50000i32).to_le_bytes().to_vec());
}

#[test]
fn test_encode_value_float64() {
    let bytes = encode_value(BleReading::Float64Bits(2.5f64.to_bits()), DataFormat::Float64).unwrap();
    assert_eq!(bytes, 2.5f64.to_le_bytes().to_vec());
}

#[test]
fn test_encode_value_uint64() {
    let bytes = encode_value(BleReading::Unsigned(1_000_000), DataFormat::UInt64).unwrap();
    assert_eq!(bytes, 1_000_000u64.to_le_bytes().to_vec());
}

#[test]
fn test_encode_value_int64() {
    let bytes = encode_value(BleReading::Signed(-1_000_000), DataFormat::Int64).unwrap();
    assert_eq!(bytes, (-1_000_000i64).to_le_bytes().to_vec());
}

#[test]
fn encode_value_string_is_left_to_caller() {
    assert_eq!(encode_value(BleReading::Unsigned(42), DataFormat::String), None);
}

#[test]
fn test_parse_encode_roundtrip() {
    let cases: Vec<(DataFormat, BleReading)> = vec![
        (DataFormat::Bool, BleReading::Bool(true)),
        (DataFormat::Bool, BleReading::Bool(false)),
        (DataFormat::UInt16, BleReading::Unsigned(1024)),
        (DataFormat::Int16, BleReading::Signed(-100)),
        (DataFormat::UInt32, BleReading::Unsigned(70000)),
        (DataFormat::Int32, BleReading::Signed(-50000)),
        (DataFormat::Float32, BleReading::Float32Bits(3.5f32.to_bits())),
        (DataFormat::Float64, BleReading::Float64Bits(2.5f64.to_bits())),
        (DataFormat::UInt64, BleReading::Unsigned(1_000_000)),
        (DataFormat::Int64, BleReading::Signed(-1_000_000)),
    ];
    for (format, value) in cases {
        let encoded = encode_value(value, format).unwrap();
        assert_eq!(parse_value(&encoded, format), Some(value), "{format:?}");
    }
}

#[test]
fn test_parse_value_empty_bytes() {
    for f in [
        DataFormat::Bool,
        DataFormat::UInt16,
        DataFormat::Int16,
        DataFormat::UInt32,
        DataFormat::Int32,
        DataFormat::Float32,
        DataFormat::Float64,
        DataFormat::UInt64,
        DataFormat::Int64,
        DataFormat::String,
    ] {
        assert_eq!(parse_value(&[], f), None);
    }
}

#[test]
fn test_parse_value_insufficient_bytes_extended() {
    assert_eq!(parse_value(&[0, 0, 0], DataFormat::UInt32), None);
    assert_eq!(parse_value(&[0, 0, 0], DataFormat::Int32), None);
    assert_eq!(parse_value(&[0, 0, 0], DataFormat::Float32), None);
    assert_eq!(parse_value(&[0, 0, 0, 0, 0, 0, 0], DataFormat::Float64), None);
    assert_eq!(parse_value(&[0, 0, 0, 0, 0, 0, 0], DataFormat::UInt64), None);
    assert_eq!(parse_value(&[0, 0, 0, 0, 0, 0, 0], DataFormat::Int64), None);
}

#[test]
fn resolve_points_expands_uuids() {
    let ble = |id: u32, s: &str, c: &str, notify: bool| PointConfig {
        id,
        point_type: PointType::Telemetry,
        name: None,
        address: ProtocolAddress::Ble(BleAddress {
            service_uuid: s.to_string(),
            characteristic_uuid: c.to_string(),
            data_format: DataFormat::Int16,
            notify,
        }),
        enabled: true,
    };
    let mut other = ble(9, "180f", "2a19", false);
    other.address = ProtocolAddress::Generic("x".to_string());
    let pts = vec![ble(1, "180f", "2a19", true), other];
    let r = resolve_points(&pts).unwrap();
    assert_eq!(
        r,
        vec![ResolvedBlePoint {
            point_id: 1,
            service_uuid: 0x0000180f_0000_1000_8000_00805f9b34fb,
            char_uuid: 0x00002a19_0000_1000_8000_00805f9b34fb,
            data_format: DataFormat::Int16,
            notify: true,
        }]
    );
    assert_eq!(resolve_points(&[ble(2, "12345", "2a19", false)]), Err(UuidError::InvalidUuidLength));
}

#[test]
fn write_target_finds_first_point_with_id() {
    let ble = |id: u32, s: &str, c: &str| PointConfig {
        id,
        point_type: PointType::Control,
        name: None,
        address: ProtocolAddress::Ble(BleAddress {
            service_uuid: s.to_string(),
            characteristic_uuid: c.to_string(),
            data_format: DataFormat::UInt16,
            notify: false,
        }),
        enabled: true,
    };
    let mut other = ble(4, "180f", "2a19");
    other.address = ProtocolAddress::Generic("x".to_string());
    let pts = vec![ble(1, "180f", "2a19"), ble(2, "1234", "2a19"), ble(2, "1", "2"), other, ble(5, "180f", "xyz")];
    assert_eq!(
        write_target(&pts, 2),
        Ok(BleWriteTarget {
            point_index: 1,
            service_uuid: 0x00001234_0000_1000_8000_00805f9b34fb,
            char_uuid: 0x00002a19_0000_1000_8000_00805f9b34fb,
            data_format: DataFormat::UInt16,
        })
    );
    assert_eq!(write_target(&pts, 4), Err(BleWriteError::NotBle(4)));
    assert_eq!(write_target(&pts, 5), Err(BleWriteError::Uuid(UuidError::InvalidUuidLength)));
    assert_eq!(write_target(&pts, 9), Err(BleWriteError::PointNotFound(9)));
}

#[test]
fn short_uuid_length_counts_utf8_bytes() {
    // "é" takes two bytes, so "é1a" is a four-byte short UUID that does not parse.
    assert_eq!(expand_uuid("é1a"), Err(UuidError::InvalidShortUuid));
    assert_eq!(expand_uuid("éééé"), Err(UuidError::Invalid32BitUuid));
    assert_eq!(expand_uuid("éé"), Err(UuidError::InvalidShortUuid));
    assert_eq!(short_uuid_text("é1a").unwrap(), "0000é1a-0000-1000-8000-00805f9b34fb");
    assert_eq!(expand_uuid("1é"), Err(UuidError::InvalidUuidLength));
}
