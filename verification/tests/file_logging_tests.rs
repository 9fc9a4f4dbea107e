use comsrv_protocols::point::{PointType, Quality};
use comsrv_protocols::file_logging::{
    file_should_log, format_error, format_poll_cycle, format_raw_packet, format_with_group_id,
    sanitize_name, FileLogLevel, format_point_values_by_type, format_write_result, PointValueSummary};
use comsrv_protocols::logging::{ErrorContext, LoggedEvent, ModbusTransportType, PacketDirection, PacketMetadata};

#[test]
fn test_file_log_level_from_str() {
    assert_eq!(FileLogLevel::parse(None), FileLogLevel::Info);
    assert_eq!(FileLogLevel::parse(Some("info")), FileLogLevel::Info);
    assert_eq!(FileLogLevel::parse(Some("INFO")), FileLogLevel::Info);
    assert_eq!(FileLogLevel::parse(Some("debug")), FileLogLevel::Debug);
    assert_eq!(FileLogLevel::parse(Some("DEBUG")), FileLogLevel::Debug);
}

#[test]
fn test_sanitize_name() {
    assert_eq!(sanitize_name("PCS#1"), "PCS#1");
    assert_eq!(sanitize_name("BAMS/1"), "BAMS_1");
    assert_eq!(sanitize_name("test:name"), "test_name");
    assert_eq!(sanitize_name("a b c"), "a_b_c");
}

#[test]
fn test_format_raw_packet() {
    let line = format_raw_packet(
        &PacketDirection::Send,
        &[0x00, 0x01, 0x00, 0x00, 0x00, 0x06],
        &PacketMetadata::modbus_tcp(1, 0x03),
    );
    assert_eq!(line, ">>> modbus [slave=1 fc=0x03] [6B] 00 01 00 00 00 06");
}

#[test]
fn level_bytes_and_filter() {
    assert_eq!(FileLogLevel::Debug.as_u8(), 1);
    assert_eq!(FileLogLevel::Info.as_u8(), 0);
    assert_eq!(FileLogLevel::from_u8(1), FileLogLevel::Debug);
    assert_eq!(FileLogLevel::from_u8(7), FileLogLevel::Info);
    assert_eq!(FileLogLevel::default(), FileLogLevel::Info);
    assert_eq!(FileLogLevel::parse(Some("Debug ")), FileLogLevel::Info);
    assert!(file_should_log(FileLogLevel::Info, &LoggedEvent::Error));
    assert!(file_should_log(FileLogLevel::Info, &LoggedEvent::PointValues));
    assert!(!file_should_log(FileLogLevel::Info, &LoggedEvent::RawPacket));
    assert!(file_should_log(FileLogLevel::Debug, &LoggedEvent::PollCycleCompleted));
}

#[test]
fn other_lines() {
    let meta = PacketMetadata::Modbus {
        transport: ModbusTransportType::Tcp,
        slave_id: 2,
        function_code: 3,
        transaction_id: Some(0xD596),
        start_address: Some(100),
        quantity: Some(64),
    };
    assert_eq!(
        format_raw_packet(&PacketDirection::Receive, &[0xAB], &meta),
        "<<< modbus [TID=D596] [slave=2 fc=0x03 @100-163] [1B] AB"
    );
    let meta = PacketMetadata::Modbus {
        transport: ModbusTransportType::Tcp,
        slave_id: 2,
        function_code: 3,
        transaction_id: None,
        start_address: Some(65535),
        quantity: Some(5),
    };
    assert_eq!(
        format_raw_packet(&PacketDirection::Send, &[], &meta),
        ">>> modbus [slave=2 fc=0x03 @65535-65535] [0B] "
    );
    assert_eq!(
        format_raw_packet(&PacketDirection::Send, &[1, 2], &PacketMetadata::iec104(36, 3, 1)),
        ">>> iec104 [type=36 cot=3 ca=1] [2B] 01 02"
    );
    assert_eq!(
        format_raw_packet(
            &PacketDirection::Send,
            &[],
            &PacketMetadata::J1939 { pgn: 61444, source: 0, destination: 255 }
        ),
        ">>> j1939 [pgn=61444 src=0 dst=255] [0B] "
    );
    assert_eq!(
        format_raw_packet(
            &PacketDirection::Send,
            &[],
            &PacketMetadata::OpcUa { message_type: "MSG".to_string(), request_id: 9 }
        ),
        ">>> opcua [msg=MSG req=9] [0B] "
    );
    assert_eq!(format_error("boom", &ErrorContext::Read), "[ERROR] [read] boom");
    assert_eq!(format_poll_cycle(10, 9, 1, 250), "[POLL] points=10 ok=9 fail=1 (250ms)");
    assert_eq!(format_with_group_id(Some(1), "x"), "[G001] x");
    assert_eq!(format_with_group_id(Some(12345), "x"), "[G345] x");
    assert_eq!(format_with_group_id(None, "x"), "x");
    assert_eq!(sanitize_name("Größe/1"), "Größe_1");
}

#[test]
fn write_result_lines() {
    assert_eq!(format_write_result("CTRL", 3, &Ok(2), 15), "[CTRL] cmds=3 ok (2) (15ms)");
    assert_eq!(
        format_write_result("ADJ", 1, &Err("timeout".to_string()), 7),
        "[ADJ] cmds=1 FAILED: timeout (7ms)"
    );
}

#[test]
fn point_value_lines_by_kind() {
    let v = |id: u32, pt: PointType, value: &str, q: Quality| PointValueSummary {
        id,
        point_type: pt,
        value: value.to_string(),
        quality: q,
    };
    let values = vec![
        v(2001, PointType::Signal, "1", Quality::Good),
        v(1001, PointType::Telemetry, "23.50", Quality::Good),
        v(2002, PointType::Signal, "0", Quality::Bad),
        v(1002, PointType::Telemetry, "45", Quality::Good),
    ];
    assert_eq!(
        format_point_values_by_type(&values),
        vec!["[T] 1001:23.50, 1002:45".to_string(), "[S] 2001:1, 2002:0!".to_string()]
    );
    assert!(format_point_values_by_type(&[]).is_empty());
}
