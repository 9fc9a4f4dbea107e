use comsrv_protocols::dl645::{
    bcd_to_u32, calculate_checksum, decode_data, decode_response, encode_data,
    encode_read_request, fail_all_standard_points, parse_bcd_reading, parse_current, parse_energy,
    parse_voltage, standard_points, frame_span, serial_settings, SerialParity, SerialSettings,
    SerialSettingsError,
    BcdReading, DataFormat, DataIdentifier, Dl645ChannelParamsConfig, Dl645CodecError,
    Dl645Error, MeterAddress, CTRL_READ_DATA, FRAME_END, FRAME_START,
};
use comsrv_protocols::address::Dl645Address;
use std::time::Duration;

#[test]
fn test_meter_address_from_str() {
    let addr = MeterAddress::parse("123456789012").unwrap();
    assert_eq!(addr.to_string(), "123456789012");
}

#[test]
fn test_meter_address_wire_format() {
    let addr = MeterAddress::parse("123456789012").unwrap();
    let wire = addr.to_wire_bytes();
    assert_eq!(wire[0], 0x12);
    assert_eq!(wire[5], 0x12);
}

#[test]
fn test_meter_address_invalid() {
    assert!(MeterAddress::parse("12345").is_err());
    assert!(MeterAddress::parse("12345678901a").is_err());
}

#[test]
fn test_data_identifier_from_hex() {
    let di = DataIdentifier::from_hex_str("00010000").unwrap();
    assert_eq!(di.to_hex_string(), "00010000");
}

#[test]
fn test_data_identifier_wire_format() {
    let di = DataIdentifier::from_hex_str("00010000").unwrap();
    let wire = di.to_wire_bytes();
    assert_eq!(wire, [0x00, 0x00, 0x01, 0x00]);
}

#[test]
fn test_dl645_address_parse() {
    let addr = Dl645Address::parse("0x02010100").unwrap();
    assert_eq!(addr.di_code, 0x02010100);
    assert_eq!(addr.to_hex_string(), "02010100");

    let addr = Dl645Address::parse("00010000").unwrap();
    assert_eq!(addr.di_code, 0x00010000);
}

#[test]
fn test_dl645_address_invalid() {
    assert!(Dl645Address::parse("0201").is_err());
    assert!(Dl645Address::parse("0201010000").is_err());
    assert!(Dl645Address::parse("0201GHIJ").is_err());
}

#[test]
fn test_encode_decode_data() {
    let plain = vec![0x00, 0x01, 0x02, 0xFF];
    let encoded = encode_data(&plain);
    let decoded = decode_data(&encoded);
    assert_eq!(plain, decoded);
}

#[test]
fn test_checksum_calculation() {
    let frame = vec![0x68, 0x12, 0x34, 0x56, 0x78, 0x90, 0x12, 0x68, 0x11, 0x04];
    let cs = calculate_checksum(&frame);
    let expected: u8 = frame.iter().fold(0u8, |acc, &b| acc.wrapping_add(b));
    assert_eq!(cs, expected);
}

#[test]
fn test_encode_read_request() {
    let meter_addr = MeterAddress::parse("123456789012").unwrap();
    let data_id = DataIdentifier::from_hex_str("00010000").unwrap();

    let frame = encode_read_request(&meter_addr, &data_id);

    assert_eq!(frame[0], FRAME_START);
    assert_eq!(frame[7], FRAME_START);
    assert_eq!(frame[8], CTRL_READ_DATA);
    assert_eq!(frame[9], 4);
    assert_eq!(*frame.last().unwrap(), FRAME_END);
    assert_eq!(frame.len(), 16);
}

#[test]
fn test_decode_response_valid() {
    let mut frame = vec![0x68, 0x12, 0x90, 0x78, 0x56, 0x34, 0x12, 0x68, 0x91, 0x08];
    let di_data: [u8; 8] = [0x00, 0x00, 0x01, 0x00, 0x12, 0x34, 0x56, 0x78];
    let encoded: Vec<u8> = di_data.iter().map(|&b| b.wrapping_add(0x33)).collect();
    frame.extend_from_slice(&encoded);
    let cs = calculate_checksum(&frame);
    frame.push(cs);
    frame.push(0x16);

    let response = decode_response(&frame).unwrap();
    assert_eq!(response.meter_addr.to_string(), "123456789012");
    assert_eq!(response.data_id.to_hex_string(), "00010000");
    assert_eq!(response.data, vec![0x12, 0x34, 0x56, 0x78]);
}

#[test]
fn test_decode_response_checksum_error() {
    let frame = vec![
        0x68, 0x12, 0x90, 0x78, 0x56, 0x34, 0x12, 0x68, 0x91, 0x04, 0x33, 0x33, 0x34, 0x33, 0x00,
        0x16,
    ];
    assert!(decode_response(&frame).is_err());
}

#[test]
fn test_bcd_to_u32() {
    assert_eq!(bcd_to_u32(0x12), 12);
    assert_eq!(bcd_to_u32(0x99), 99);
    assert_eq!(bcd_to_u32(0x00), 0);
}

#[test]
fn test_data_format_detection() {
    let energy_di = DataIdentifier::from_hex_str("00010000").unwrap();
    assert!(matches!(DataFormat::from_data_id(&energy_di), DataFormat::Energy));

    let voltage_di = DataIdentifier::from_hex_str("02010100").unwrap();
    assert!(matches!(DataFormat::from_data_id(&voltage_di), DataFormat::Voltage));

    let current_di = DataIdentifier::from_hex_str("02020100").unwrap();
    assert!(matches!(DataFormat::from_data_id(&current_di), DataFormat::Current));
}

fn params(host: Option<&str>, device: Option<&str>) -> Dl645ChannelParamsConfig {
    Dl645ChannelParamsConfig {
        meter_address: "123456789012".to_string(),
        host: host.map(|h| h.to_string()),
        port: 8899,
        device: device.map(|d| d.to_string()),
        baud_rate: 2400,
        data_bits: 8,
        stop_bits: 1,
        parity: "even".to_string(),
        connect_timeout_ms: 5000,
        timeout_ms: 3000,
        retry_count: 2,
        frame_delay_ms: 200,
    }
}

#[test]
fn test_channel_config_tcp() {
    let params = params(Some("192.168.1.100"), None);
    assert!(params.is_tcp());
    assert_eq!(params.tcp_address(), Some("192.168.1.100:8899".to_string()));

    let config = params.to_channel_config();
    assert_eq!(config.meter_address, "123456789012");
    assert_eq!(config.connect_timeout, Duration::from_millis(5000));
    assert_eq!(config.io_timeout, Duration::from_millis(3000));
}

#[test]
fn test_channel_config_serial() {
    let params = params(None, Some("/dev/ttyUSB0"));
    assert!(!params.is_tcp());
    assert_eq!(params.tcp_address(), None);

    let config = params.to_channel_config();
    assert_eq!(config.meter_address, "123456789012");
    assert_eq!(config.device, Some("/dev/ttyUSB0".to_string()));
    assert_eq!(config.baud_rate, 2400);
    assert_eq!(config.parity, "even");
}

#[test]
fn test_data_identifier_from_u32() {
    let di = DataIdentifier::from_u32(0x0001_0000);
    assert_eq!(di.to_hex_string(), "00010000");

    let di = DataIdentifier::from_u32(0x0201_0100);
    assert_eq!(di.to_hex_string(), "02010100");

    let di = DataIdentifier::from_u32(0x0001_0000);
    let wire = di.to_wire_bytes();
    assert_eq!(wire, [0x00, 0x00, 0x01, 0x00]);
}

#[test]
fn test_standard_points_count() {
    let points = standard_points();
    assert_eq!(points.len(), 11);
    let di_codes: Vec<u32> = points.iter().map(|p| p.di_code).collect();
    let unique_count = di_codes.iter().collect::<std::collections::HashSet<_>>().len();
    assert_eq!(di_codes.len(), unique_count);
}

// ---- readings as exact decimal parts ----

#[test]
fn energy_reading_is_exact() {
    let r = parse_bcd_reading(&[0x78, 0x56, 0x34, 0x12], DataFormat::Energy).unwrap();
    assert_eq!(r, BcdReading { integer: 123456, fraction: 78, fraction_digits: 2, negative: false });
}

#[test]
fn voltage_reading_is_exact() {
    let r = parse_bcd_reading(&[0x05, 0x22], DataFormat::Voltage).unwrap();
    assert_eq!(r, BcdReading { integer: 220, fraction: 5, fraction_digits: 1, negative: false });
}

#[test]
fn current_reading_is_exact() {
    let r = parse_bcd_reading(&[0x23, 0x11, 0x00], DataFormat::Current).unwrap();
    assert_eq!(r, BcdReading { integer: 1, fraction: 123, fraction_digits: 3, negative: false });
}

#[test]
fn power_reading_carries_sign() {
    let r = parse_bcd_reading(&[0x56, 0x34, 0x92], DataFormat::Power).unwrap();
    assert_eq!(r, BcdReading { integer: 12, fraction: 3456, fraction_digits: 4, negative: true });
}

#[test]
fn power_factor_reading_carries_sign() {
    let r = parse_bcd_reading(&[0x45, 0x83], DataFormat::PowerFactor).unwrap();
    assert_eq!(r, BcdReading { integer: 0, fraction: 345, fraction_digits: 3, negative: true });
}

#[test]
fn raw_reading_is_first_byte() {
    assert_eq!(parse_bcd_reading(&[7, 9], DataFormat::Raw).unwrap().integer, 7);
    assert_eq!(parse_bcd_reading(&[], DataFormat::Raw).unwrap().integer, 0);
}

#[test]
fn short_data_is_insufficient() {
    assert_eq!(
        parse_bcd_reading(&[0x78, 0x56, 0x34], DataFormat::Energy),
        Err(Dl645CodecError::InsufficientData)
    );
}

fn response(ctrl: u8, payload: &[u8]) -> Vec<u8> {
    let mut frame = vec![0x68, 0x12, 0x90, 0x78, 0x56, 0x34, 0x12, 0x68, ctrl, payload.len() as u8];
    frame.extend(payload.iter().map(|b| b.wrapping_add(0x33)));
    let cs = calculate_checksum(&frame);
    frame.push(cs);
    frame.push(0x16);
    frame
}

#[test]
fn decode_response_meter_error() {
    let frame = response(0xD1, &[0x04, 0, 0, 0]);
    assert_eq!(
        decode_response(&frame).err(),
        Some(Dl645CodecError::MeterError(Dl645Error::NoPermission))
    );
}

#[test]
fn decode_response_unexpected_control() {
    let frame = response(0x93, &[0, 0, 1, 0]);
    assert_eq!(decode_response(&frame).err(), Some(Dl645CodecError::UnexpectedControlCode(0x93)));
}

#[test]
fn decode_response_short_and_markers() {
    assert_eq!(decode_response(&[0x68; 5]).err(), Some(Dl645CodecError::FrameTooShort(5)));
    let mut frame = response(0x91, &[0, 0, 1, 0]);
    frame[7] = 0x00;
    assert_eq!(decode_response(&frame).err(), Some(Dl645CodecError::InvalidStartMarkers));
    let mut frame = response(0x91, &[0, 0, 1, 0]);
    let last = frame.len() - 1;
    frame[last] = 0x17;
    assert_eq!(decode_response(&frame).err(), Some(Dl645CodecError::InvalidEndMarker));
}

#[test]
fn decode_response_length_mismatch() {
    let mut frame = vec![0x68, 0x12, 0x90, 0x78, 0x56, 0x34, 0x12, 0x68, 0x91, 0x05];
    frame.extend([0x33, 0x33, 0x34, 0x33]);
    let cs = calculate_checksum(&frame);
    frame.push(cs);
    frame.push(0x16);
    assert_eq!(
        decode_response(&frame).err(),
        Some(Dl645CodecError::FrameLengthMismatch { expected_len: 17, got_len: 16 })
    );
}

#[test]
fn broadcast_address_text() {
    assert_eq!(MeterAddress::broadcast().to_string(), "101010101010101010101010");
    assert_eq!(MeterAddress::broadcast().to_wire_bytes(), [0xAA; 6]);
}

#[test]
fn invalid_hex_reports_the_char() {
    assert_eq!(
        DataIdentifier::from_hex_str("0201GHIJ").err(),
        Some(Dl645CodecError::InvalidHexChar(b'G'))
    );
    assert_eq!(
        DataIdentifier::from_hex_str("0201").err(),
        Some(Dl645CodecError::IdentifierLength(4))
    );
}

#[test]
fn fail_all_covers_every_point() {
    let v = fail_all_standard_points("Not connected");
    assert_eq!(v.len(), 11);
    assert_eq!(v[0].point_id, 1);
    assert_eq!(v[10].point_id, 11);
    assert!(v.iter().all(|f| f.error == "Not connected"));
}

#[test]
fn request_checksum_matches() {
    let meter_addr = MeterAddress::parse("123456789012").unwrap();
    let frame = encode_read_request(&meter_addr, &DataIdentifier::from_u32(0x0201_0100));
    assert_eq!(frame[14], calculate_checksum(&frame[..14]));
    assert_eq!(&frame[10..14], &[0x33, 0x34, 0x34, 0x35]);
}

fn reading_value(r: BcdReading) -> f64 {
    let v = f64::from(r.integer) + f64::from(r.fraction) / 10f64.powi(r.fraction_digits as i32);
    if r.negative {
        -v
    } else {
        v
    }
}

#[test]
fn test_parse_energy() {
    // 123456.78 kWh -> [0x78, 0x56, 0x34, 0x12] (BCD, LSB first)
    let data = vec![0x78, 0x56, 0x34, 0x12];
    let value = reading_value(parse_energy(&data).unwrap());
    assert!((value - 123456.78).abs() < 0.001);
}

#[test]
fn test_parse_voltage() {
    // 220.5 V -> [0x05, 0x22] (XXX.X, BCD)
    let data = vec![0x05, 0x22];
    let value = reading_value(parse_voltage(&data).unwrap());
    assert!((value - 220.5).abs() < 0.01);
}

#[test]
fn test_parse_current() {
    let data = vec![0x23, 0x11, 0x00];
    let value = reading_value(parse_current(&data).unwrap());
    assert!((value - 1.123).abs() < 0.001);
}

#[test]
fn frame_span_finds_complete_frame() {
    // Two noise bytes, then a frame with two data bytes (12 + 2 = 14 bytes).
    let mut buf = vec![0xFE, 0xFE, 0x68, 1, 2, 3, 4, 5, 6, 0x68, 0x91, 0x02, 0x33, 0x33, 0xAA, 0x16];
    assert_eq!(frame_span(&buf), Some((2, 14)));
    buf.pop();
    assert_eq!(frame_span(&buf), None);
    assert_eq!(frame_span(&[0x68; 13]), None);
    assert_eq!(frame_span(&[0x00; 20]), None);
}

#[test]
fn serial_settings_checked() {
    assert_eq!(
        serial_settings("even", 8, 1),
        Ok(SerialSettings { parity: SerialParity::Even, data_bits: 8, stop_bits: 1 })
    );
    assert_eq!(serial_settings("none", 7, 2).unwrap().parity, SerialParity::NoParity);
    assert_eq!(
        serial_settings("mark", 8, 1),
        Err(SerialSettingsError::InvalidParity("mark".to_string()))
    );
    assert_eq!(serial_settings("odd", 9, 1), Err(SerialSettingsError::InvalidDataBits(9)));
    assert_eq!(serial_settings("odd", 8, 3), Err(SerialSettingsError::InvalidStopBits(3)));
}
