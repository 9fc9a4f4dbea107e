use std::time::Duration;

use comsrv_protocols::address::{Iec104Address, ProtocolAddress};
use comsrv_protocols::iec104::{cp56time2a_to_millis, Cp56Time2a, Iec104ChannelConfig};
use comsrv_protocols::point::{PointConfig, PointType};

#[test]
fn test_iec104_channel_config() {
    let config = Iec104ChannelConfig::new("127.0.0.1:2404")
        .with_common_address(1)
        .with_connect_timeout(Duration::from_secs(10));

    assert_eq!(config.address, "127.0.0.1:2404");
    assert_eq!(config.common_address, 1);
    assert_eq!(config.connect_timeout, Duration::from_secs(10));
}

#[test]
fn iec104_defaults() {
    let config = Iec104ChannelConfig::new("10.0.0.2:2404");
    assert_eq!(config.t1_timeout, Duration::from_secs(15));
    assert_eq!(config.t2_timeout, Duration::from_secs(10));
    assert_eq!(config.t3_timeout, Duration::from_secs(20));
    assert_eq!(config.k, 12);
    assert_eq!(config.w, 8);
    assert!(config.points.is_empty());
}

#[test]
fn iec104_ioa_mapping() {
    let p = PointConfig {
        id: 7,
        point_type: PointType::Signal,
        name: None,
        address: ProtocolAddress::Iec104(Iec104Address { ioa: 4001, type_id: 1, common_address: 1 }),
        enabled: true,
    };
    let config = Iec104ChannelConfig::new("10.0.0.2:2404").with_points(vec![p]);
    assert_eq!(config.resolve_ioa(4001), (7, PointType::Signal));
    assert_eq!(config.resolve_ioa(4002), (4002, PointType::Telemetry));
}

#[test]
fn test_cp56time2a_conversion() {
    let time = Cp56Time2a {
        milliseconds: 30500, // 30 seconds, 500 ms
        minutes: 15,
        hours: 10,
        day: 25,
        day_of_week: 3,
        month: 12,
        year: 24, // 2024
        invalid: false,
        summer_time: false,
    };

    let ms = cp56time2a_to_millis(&time).unwrap();
    let dt = chrono::DateTime::from_timestamp_millis(ms).unwrap();
    assert_eq!(dt.format("%Y-%m-%d %H:%M:%S").to_string(), "2024-12-25 10:15:30");
    assert_eq!(ms % 1000, 500);
}

#[test]
fn cp56time2a_invalid_and_impossible() {
    let mut time = Cp56Time2a {
        milliseconds: 0,
        minutes: 0,
        hours: 0,
        day: 1,
        day_of_week: 1,
        month: 1,
        year: 0,
        invalid: false,
        summer_time: false,
    };
    assert_eq!(cp56time2a_to_millis(&time), Some(946_684_800_000));
    time.invalid = true;
    assert_eq!(cp56time2a_to_millis(&time), None);
    time.invalid = false;
    time.month = 13;
    assert_eq!(cp56time2a_to_millis(&time), None);
}
