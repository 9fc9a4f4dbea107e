use comsrv_protocols::address::{AddressError, AddressField, ModbusAddress, ProtocolAddress};
use comsrv_protocols::factory::{build_point_configs, channel_kind, select_channel, ChannelKind, PointDef};
use comsrv_protocols::point::{ByteOrder, DataFormat, PointType};

fn def(id: u32, address: &str, enabled: bool) -> PointDef {
    PointDef {
        id,
        name: format!("p{id}"),
        point_type: PointType::Telemetry,
        address: address.to_string(),
        enabled,
    }
}

#[test]
fn channel_kind_ignores_case() {
    assert_eq!(channel_kind("modbus"), Some(ChannelKind::Modbus));
    assert_eq!(channel_kind("MODBUS"), Some(ChannelKind::Modbus));
    assert_eq!(channel_kind("Iec104"), Some(ChannelKind::Iec104));
    assert_eq!(channel_kind("voltage_485"), Some(ChannelKind::Voltage485));
    assert_eq!(channel_kind("VIRTUAL"), Some(ChannelKind::Virtual));
    assert_eq!(channel_kind("iec61850"), Some(ChannelKind::Iec61850));
    assert_eq!(channel_kind("profinet"), None);
    assert_eq!(channel_kind(""), None);
}

#[test]
fn point_configs_skip_disabled_points() {
    let defs = vec![def(1, "1:100", true), def(2, "not an address", false), def(3, "2:5:4", true)];
    let cfgs = build_point_configs("modbus", &defs).unwrap();
    assert_eq!(cfgs.len(), 2);
    assert_eq!(cfgs[0].id, 1);
    assert_eq!(cfgs[0].name.as_deref(), Some("p1"));
    assert!(cfgs[0].enabled);
    assert_eq!(
        cfgs[1].address,
        ProtocolAddress::Modbus(ModbusAddress {
            slave_id: 2,
            register: 5,
            function_code: 4,
            format: DataFormat::UInt16,
            byte_order: ByteOrder::Abcd,
            bit_position: None,
        })
    );
}

#[test]
fn point_configs_first_error_wins() {
    let defs = vec![def(1, "1:100", true), def(2, "x:1", true), def(3, "1", true)];
    assert_eq!(
        build_point_configs("modbus", &defs).unwrap_err(),
        AddressError::Invalid(AddressField::SlaveId)
    );
    assert_eq!(
        build_point_configs("nope", &[def(1, "1:1", true)]).unwrap_err(),
        AddressError::UnknownProtocol
    );
    assert!(build_point_configs("nope", &[def(1, "1:1", false)]).unwrap().is_empty());
}

#[test]
fn unsupported_protocol_is_named() {
    assert_eq!(select_channel("MODBUS"), Ok(ChannelKind::Modbus));
    assert_eq!(
        select_channel("profibus"),
        Err("Unsupported protocol: profibus. Check if the required feature is enabled.".to_string())
    );
}
