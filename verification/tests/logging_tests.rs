use comsrv_protocols::logging::{
    ChannelLogConfig, ErrorContext, LogEventSet, LogEventType, LoggedEvent, ModbusTransportType,
    PacketDirection, PacketMetadata,
};

#[test]
fn test_packet_metadata() {
    let meta = PacketMetadata::modbus_tcp(1, 0x03);
    assert_eq!(meta.protocol_name(), "modbus-tcp");

    let meta = PacketMetadata::iec104(36, 3, 1);
    assert_eq!(meta.protocol_name(), "iec104");
}

#[test]
fn test_log_config() {
    let config = ChannelLogConfig::new();
    assert!(config.is_enabled(LogEventType::Connected));
    assert!(!config.is_enabled(LogEventType::PollCycle));

    let config = ChannelLogConfig::all();
    assert!(config.is_enabled(LogEventType::PollCycle));
    assert!(config.should_log_raw_packets());

    let config = ChannelLogConfig::disabled();
    assert!(!config.is_enabled(LogEventType::Connected));
}

#[test]
fn test_log_event_type_sets() {
    let all = LogEventType::all();
    assert_eq!(all.len(), 12);

    let default_set = LogEventType::default_set();
    assert!(!default_set.contains(&LogEventType::PollCycle));
    assert!(default_set.contains(&LogEventType::Error));
    assert!(default_set.contains(&LogEventType::PointValues));
}

#[test]
fn protocol_names_and_arrows() {
    let m = PacketMetadata::Modbus {
        transport: ModbusTransportType::Rtu,
        slave_id: 1,
        function_code: 3,
        transaction_id: None,
        start_address: None,
        quantity: None,
    };
    assert_eq!(m.protocol_name(), "modbus-rtu");
    assert_eq!(PacketMetadata::Gpio.protocol_name(), "gpio");
    assert_eq!(PacketMetadata::Other { protocol: "x-proto".to_string() }.protocol_name(), "x-proto");
    assert_eq!(PacketDirection::Send.arrow(), ">>>");
    assert_eq!(PacketDirection::Receive.arrow(), "<<<");
    assert_eq!(ErrorContext::PollingSegment { start: 100, end: 163 }.text(), "polling @100-163");
    assert_eq!(ErrorContext::WriteAdjustment.text(), "write_adjustment");
}

#[test]
fn event_sets() {
    let mut s = LogEventSet::new();
    assert_eq!(s.len(), 0);
    s.insert(LogEventType::Error);
    s.insert(LogEventType::Error);
    s.insert(LogEventType::RawPacket);
    assert_eq!(s.len(), 2);
    assert!(s.contains(&LogEventType::RawPacket));
    assert!(!s.contains(&LogEventType::Connected));
    let e = LogEventType::errors_and_connections();
    assert_eq!(e.len(), 6);
    assert!(!e.contains(&LogEventType::PointValues));
    assert_eq!(LogEventType::default_set().len(), 9);
}

#[test]
fn config_filters_events() {
    let c = ChannelLogConfig::new();
    assert!(!c.should_log(&LoggedEvent::ReadOperation { ok: false }));
    assert!(c.should_log(&LoggedEvent::ControlWrite { ok: true }));
    assert!(!c.should_log(&LoggedEvent::RawPacket));
    let c = c.enable_event(LogEventType::ReadOperation);
    assert!(c.should_log(&LoggedEvent::ReadOperation { ok: false }));
    assert!(!c.should_log(&LoggedEvent::ReadOperation { ok: true }));
    let c = c.with_raw_packets(true);
    assert!(c.should_log_raw_packets());
    assert!(c.should_log(&LoggedEvent::RawPacket));
    let e = ChannelLogConfig::errors_only();
    assert!(!e.should_log(&LoggedEvent::ControlWrite { ok: false }));
    assert!(e.should_log(&LoggedEvent::Error));
}

#[test]
fn poll_sampling_and_truncation() {
    let c = ChannelLogConfig::all();
    assert!(c.should_log_poll_cycle(7));
    assert!(!ChannelLogConfig::new().should_log_poll_cycle(0));
    assert!(!ChannelLogConfig::errors_only().should_log_poll_cycle(0));
    assert_eq!(c.truncate_packet(vec![1, 2, 3]), vec![1, 2, 3]);
}
