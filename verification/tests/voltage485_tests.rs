use comsrv_protocols::point::PointType;
use comsrv_protocols::voltage485::{
    build_request, collect_poll_results, crc16_modbus, default_cmd, frame_rest_len, not_connected_failures,
    parse_response, DeviceResponse, PollTarget, Voltage485Error, Voltage485ParamsConfig,
    CMD_QUERY_DEVICE, FRAME_HEADER_0, FRAME_HEADER_1,
};

const FRAME_HEADER: [u8; 2] = [FRAME_HEADER_0, FRAME_HEADER_1];

#[test]
fn test_crc16_modbus() {
    let data = [0x02u8, 0x01, 0x01];
    let crc = crc16_modbus(&data);
    assert_eq!(crc, 0x5010);
}

#[test]
fn test_build_request() {
    let frame = build_request(0x01, CMD_QUERY_DEVICE);
    assert_eq!(frame[0], 0x5A);
    assert_eq!(frame[1], 0xA5);
    assert_eq!(frame[2], 0x02);
    assert_eq!(frame[3], 0x01);
    assert_eq!(frame[4], 0x01);
    assert_eq!(frame.len(), 7);

    let crc = crc16_modbus(&frame[2..5]);
    assert_eq!(frame[5], (crc & 0xFF) as u8);
    assert_eq!(frame[6], (crc >> 8) as u8);
}

#[test]
fn test_parse_response_len3() {
    let device_id = 0x01u8;
    let power: u16 = 1500;
    let power_h = (power >> 8) as u8;
    let power_l = (power & 0xFF) as u8;

    let len = 3u8;
    let crc_input = [len, device_id, power_h, power_l];
    let crc = crc16_modbus(&crc_input);

    let mut frame = Vec::new();
    frame.extend_from_slice(&FRAME_HEADER);
    frame.extend_from_slice(&crc_input);
    frame.push((crc & 0xFF) as u8);
    frame.push((crc >> 8) as u8);

    let resp = parse_response(&frame).unwrap();
    assert_eq!(resp.device_id, 0x01);
    assert_eq!(resp.cmd, None);
    assert_eq!(resp.power_mw, 1500);
}

#[test]
fn test_parse_response_len4() {
    let device_id = 0x02u8;
    let cmd = 0x01u8;
    let power: u16 = 2700;
    let power_h = (power >> 8) as u8;
    let power_l = (power & 0xFF) as u8;

    let len = 4u8;
    let crc_input = [len, device_id, cmd, power_h, power_l];
    let crc = crc16_modbus(&crc_input);

    let mut frame = Vec::new();
    frame.extend_from_slice(&FRAME_HEADER);
    frame.extend_from_slice(&crc_input);
    frame.push((crc & 0xFF) as u8);
    frame.push((crc >> 8) as u8);

    let resp = parse_response(&frame).unwrap();
    assert_eq!(resp.device_id, 0x02);
    assert_eq!(resp.cmd, Some(0x01));
    assert_eq!(resp.power_mw, 2700);
}

#[test]
fn test_parse_response_bad_crc() {
    let frame = [0x5A, 0xA5, 0x03, 0x01, 0x05, 0xDC, 0x00, 0x00];
    assert!(parse_response(&frame).is_err());
}

#[test]
fn test_parse_response_too_short() {
    let frame = [0x5A, 0xA5, 0x02, 0x01];
    assert!(parse_response(&frame).is_err());
}

#[test]
fn test_params_config_defaults() {
    let params = Voltage485ParamsConfig::default();
    assert_eq!(params.device, "/dev/ttyAP0");
    assert_eq!(params.baud_rate, 115_200);
    assert_eq!(params.timeout_ms, 1000);
    assert_eq!(params.retry_count, 2);

    let cfg = params.to_channel_config();
    assert_eq!(cfg.baud_rate, 115_200);
    assert_eq!(cfg.io_timeout, std::time::Duration::from_millis(1000));
    assert_eq!(cfg.frame_delay, std::time::Duration::from_millis(50));
}

#[test]
fn default_command_is_query() {
    assert_eq!(default_cmd(), CMD_QUERY_DEVICE);
}

#[test]
fn crc_of_known_vectors() {
    assert_eq!(crc16_modbus(&[]), 0xFFFF);
    // The standard check value of CRC-16/MODBUS.
    assert_eq!(crc16_modbus(b"123456789"), 0x4B37);
}

#[test]
fn response_error_kinds() {
    assert_eq!(parse_response(&[0x5A, 0xA5, 0x02, 0x01]), Err(Voltage485Error::FrameTooShort { len: 4 }));
    assert_eq!(
        parse_response(&[0x00, 0xA5, 0x03, 0x01, 0x05, 0xDC, 0x00, 0x00]),
        Err(Voltage485Error::BadHeader { first: 0x00, second: 0xA5 })
    );
    assert_eq!(
        parse_response(&[0x5A, 0xA5, 0x09, 0x01, 0x05, 0xDC, 0x00, 0x00]),
        Err(Voltage485Error::FrameLengthMismatch { expected: 14, got: 8 })
    );
    let calc = crc16_modbus(&[0x03, 0x01, 0x05, 0xDC]);
    assert_eq!(
        parse_response(&[0x5A, 0xA5, 0x03, 0x01, 0x05, 0xDC, 0x00, 0x00]),
        Err(Voltage485Error::CrcMismatch { calc, recv: 0 })
    );
    // A valid CRC over a two-byte data field: neither the old nor the new layout.
    let body = [0x02u8, 0x01, 0x01, 0x00];
    let crc = crc16_modbus(&body[..3]);
    let frame = [0x5A, 0xA5, 0x02, 0x01, 0x01, (crc & 0xFF) as u8, (crc >> 8) as u8, 0x00];
    assert_eq!(parse_response(&frame), Err(Voltage485Error::UnexpectedDataLength { len: 2 }));
}

#[test]
fn response_with_extra_payload() {
    let body = [0x05u8, 0x07, 0x01, 0x01, 0x2C, 0xFF];
    let crc = crc16_modbus(&body);
    let mut frame = vec![0x5A, 0xA5];
    frame.extend_from_slice(&body);
    frame.push((crc & 0xFF) as u8);
    frame.push((crc >> 8) as u8);
    assert_eq!(
        parse_response(&frame),
        Ok(DeviceResponse { device_id: 7, cmd: Some(1), power_mw: 300 })
    );
}

#[test]
fn poll_cycle_bookkeeping() {
    let targets = [
        PollTarget { point_id: 10, point_type: PointType::Telemetry, device_id: 1, cmd: 1 },
        PollTarget { point_id: 11, point_type: PointType::Telemetry, device_id: 2, cmd: 1 },
        PollTarget { point_id: 12, point_type: PointType::Signal, device_id: 3, cmd: 1 },
    ];
    let results = vec![
        Ok(DeviceResponse { device_id: 1, cmd: Some(1), power_mw: 100 }),
        Err("timeout".to_string()),
        Ok(DeviceResponse { device_id: 3, cmd: None, power_mw: 7 }),
    ];
    let c = collect_poll_results(&targets, &results);
    assert_eq!(c.readings, vec![(10, PointType::Telemetry, 100), (12, PointType::Signal, 7)]);
    assert_eq!(c.failures.len(), 1);
    assert_eq!(c.failures[0].point_id, 11);
    assert_eq!(c.failures[0].error, "timeout");
    assert_eq!(c.ok_count, 2);
    assert_eq!(c.err_count, 1);

    let f = not_connected_failures(&targets);
    assert_eq!(f.len(), 3);
    assert_eq!(f[2].point_id, 12);
    assert_eq!(f[0].error, "Not connected");
}

#[test]
fn response_header_checked() {
    assert_eq!(frame_rest_len(&[0x5A, 0xA5, 0x03]), Ok(5));
    assert_eq!(
        frame_rest_len(&[0x5A, 0xA5, 0x00]),
        Err(Voltage485Error::InvalidResponseLength { len: 0 })
    );
    assert_eq!(
        frame_rest_len(&[0x5B, 0xA5, 0x03]),
        Err(Voltage485Error::BadHeader { first: 0x5B, second: 0xA5 })
    );
}
