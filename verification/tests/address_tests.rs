use comsrv_protocols::address::{
    parse_address, parse_ble_address, parse_gpio_address, parse_iec104_address,
    parse_iec61850_address, parse_matter_address, parse_modbus_address, parse_opcua_address,
    parse_zigbee_address, AddressError, AddressField, GpioDirection, MatterAddress,
    ProtocolAddress,
};

#[test]
fn test_parse_modbus_address() {
    let addr = parse_modbus_address("1:100").unwrap();
    let ProtocolAddress::Modbus(m) = addr else {
        unreachable!("parse_modbus_address always returns Modbus variant")
    };
    assert_eq!(m.slave_id, 1);
    assert_eq!(m.register, 100);
    assert_eq!(m.function_code, 3);
}

#[test]
fn test_parse_modbus_address_with_function() {
    let addr = parse_modbus_address("2:200:4").unwrap();
    let ProtocolAddress::Modbus(m) = addr else {
        unreachable!("parse_modbus_address always returns Modbus variant")
    };
    assert_eq!(m.slave_id, 2);
    assert_eq!(m.register, 200);
    assert_eq!(m.function_code, 4);
}

#[test]
fn test_parse_iec104_address() {
    let addr = parse_iec104_address("1001").unwrap();
    let ProtocolAddress::Iec104(i) = addr else {
        unreachable!("parse_iec104_address always returns Iec104 variant")
    };
    assert_eq!(i.ioa, 1001);
}

#[test]
fn test_parse_opcua_address() {
    let addr = parse_opcua_address("ns=2;i=1234").unwrap();
    let ProtocolAddress::OpcUa(o) = addr else {
        unreachable!("parse_opcua_address always returns OpcUa variant")
    };
    assert_eq!(o.namespace_index, 2);
    assert_eq!(o.node_id, "i=1234");
}

#[test]
fn test_parse_opcua_address_no_namespace() {
    let addr = parse_opcua_address("i=1234").unwrap();
    let ProtocolAddress::OpcUa(o) = addr else {
        unreachable!("parse_opcua_address always returns OpcUa variant")
    };
    assert_eq!(o.namespace_index, 0);
    assert_eq!(o.node_id, "i=1234");
}

#[test]
fn test_parse_virtual_address() {
    let addr = parse_address("virtual", "temperature").unwrap();
    let ProtocolAddress::Virtual(v) = addr else {
        unreachable!("parse_address(\"virtual\", ..) always returns Virtual variant")
    };
    assert_eq!(v.tag, "temperature");
}

#[test]
fn test_parse_modbus_missing_register() {
    let result = parse_modbus_address("1");
    assert!(result.is_err());
}

#[test]
fn test_parse_modbus_invalid_slave_id() {
    let result = parse_modbus_address("abc:100");
    assert!(result.is_err());
}

#[test]
fn test_parse_modbus_invalid_register() {
    let result = parse_modbus_address("1:xyz");
    assert!(result.is_err());
}

#[test]
fn test_parse_modbus_invalid_function_code() {
    let result = parse_modbus_address("1:100:bad");
    assert!(result.is_err());
}

#[test]
fn test_parse_modbus_slave_id_overflow() {
    let result = parse_modbus_address("256:100");
    assert!(result.is_err());
}

#[test]
fn test_parse_modbus_register_overflow() {
    let result = parse_modbus_address("1:65536");
    assert!(result.is_err());
}

#[test]
fn test_parse_iec104_invalid_ioa() {
    let result = parse_iec104_address("not_a_number");
    assert!(result.is_err());
}

#[test]
fn test_parse_iec104_invalid_type_id() {
    let result = parse_iec104_address("1001:abc");
    assert!(result.is_err());
}

#[test]
fn test_parse_iec104_type_id_overflow() {
    let result = parse_iec104_address("1001:256");
    assert!(result.is_err());
}

#[test]
fn test_parse_opcua_missing_semicolon() {
    let result = parse_opcua_address("ns=2i=1234");
    assert!(result.is_err());
}

#[test]
fn test_parse_opcua_invalid_namespace() {
    let result = parse_opcua_address("ns=abc;i=1234");
    assert!(result.is_err());
}

#[test]
fn test_parse_opcua_invalid_node_id_prefix() {
    let result = parse_opcua_address("ns=2;x=1234");
    assert!(result.is_err());
}

#[test]
fn test_parse_opcua_no_ns_invalid_prefix() {
    let result = parse_opcua_address("x=1234");
    assert!(result.is_err());
}

#[test]
fn test_parse_address_unknown_protocol() {
    let result = parse_address("unknown_proto", "some_addr");
    assert!(result.is_err());
}

#[test]
fn test_parse_address_case_insensitive() {
    assert!(parse_address("MODBUS", "1:100").is_ok());
    assert!(parse_address("Modbus", "1:100").is_ok());
    assert!(parse_address("IEC104", "1001").is_ok());
    assert!(parse_address("OPCUA", "i=1234").is_ok());
    assert!(parse_address("Virtual", "key").is_ok());
}

#[test]
fn test_parse_iec104_with_type_id() {
    let addr = parse_iec104_address("2001:13").unwrap();
    let ProtocolAddress::Iec104(i) = addr else {
        unreachable!("parse_iec104_address always returns Iec104 variant")
    };
    assert_eq!(i.ioa, 2001);
    assert_eq!(i.type_id, 13);
    assert_eq!(i.common_address, 1);
}

#[test]
fn test_parse_opcua_string_node_id() {
    let addr = parse_opcua_address("ns=3;s=Temperature").unwrap();
    let ProtocolAddress::OpcUa(o) = addr else {
        unreachable!("parse_opcua_address always returns OpcUa variant")
    };
    assert_eq!(o.namespace_index, 3);
    assert_eq!(o.node_id, "s=Temperature");
}

#[test]
fn test_parse_ble_address_short_uuids() {
    let addr = parse_ble_address("180f/2a19").unwrap();
    let ProtocolAddress::Ble(b) = addr else {
        unreachable!("parse_ble_address always returns Ble variant")
    };
    assert_eq!(b.service_uuid, "180f");
    assert_eq!(b.characteristic_uuid, "2a19");
    assert!(!b.notify);
}

#[test]
fn test_parse_ble_address_with_notify() {
    let addr = parse_ble_address("180f/2a19:notify").unwrap();
    let ProtocolAddress::Ble(b) = addr else {
        unreachable!("parse_ble_address always returns Ble variant")
    };
    assert_eq!(b.service_uuid, "180f");
    assert_eq!(b.characteristic_uuid, "2a19");
    assert!(b.notify);
}

#[test]
fn test_parse_ble_address_full_uuids() {
    let addr = parse_ble_address(
        "12345678-1234-1234-1234-123456789abc/abcdef01-1234-5678-abcd-123456789abc:notify",
    )
    .unwrap();
    let ProtocolAddress::Ble(b) = addr else {
        unreachable!("parse_ble_address always returns Ble variant")
    };
    assert_eq!(b.service_uuid, "12345678-1234-1234-1234-123456789abc");
    assert_eq!(b.characteristic_uuid, "abcdef01-1234-5678-abcd-123456789abc");
    assert!(b.notify);
}

#[test]
fn test_parse_ble_address_missing_slash() {
    let result = parse_ble_address("180f2a19");
    assert!(result.is_err());
}

#[test]
fn test_parse_ble_address_empty_uuid() {
    let result = parse_ble_address("/2a19");
    assert!(result.is_err());
    let result = parse_ble_address("180f/");
    assert!(result.is_err());
}

#[test]
fn test_parse_address_ble_via_dispatch() {
    let addr = parse_address("ble", "180f/2a19:notify").unwrap();
    let ProtocolAddress::Ble(b) = addr else {
        unreachable!("parse_address(\"ble\", ..) should return Ble variant")
    };
    assert_eq!(b.service_uuid, "180f");
    assert!(b.notify);
}

#[test]
fn test_parse_address_ble_case_insensitive() {
    assert!(parse_address("BLE", "180f/2a19").is_ok());
    assert!(parse_address("Ble", "180f/2a19").is_ok());
}

#[test]
fn test_parse_zigbee_address_hex() {
    let addr = parse_zigbee_address("0x00124B0018ED1234/1/0x0402/0x0000").unwrap();
    let ProtocolAddress::Zigbee(z) = addr else {
        unreachable!("parse_zigbee_address always returns Zigbee variant")
    };
    assert_eq!(z.ieee_address, 0x00124B0018ED1234);
    assert_eq!(z.endpoint, 1);
    assert_eq!(z.cluster_id, 0x0402);
    assert_eq!(z.attribute_id, 0x0000);
}

#[test]
fn test_parse_zigbee_address_decimal() {
    let addr = parse_zigbee_address("5124095622791732/1/1026/0").unwrap();
    let ProtocolAddress::Zigbee(z) = addr else {
        unreachable!("parse_zigbee_address always returns Zigbee variant")
    };
    assert_eq!(z.ieee_address, 5124095622791732);
    assert_eq!(z.endpoint, 1);
    assert_eq!(z.cluster_id, 1026);
    assert_eq!(z.attribute_id, 0);
}

#[test]
fn test_parse_zigbee_address_mixed() {
    let addr = parse_zigbee_address("0x00124B0018ED1234/2/0x0006/0").unwrap();
    let ProtocolAddress::Zigbee(z) = addr else {
        unreachable!("parse_zigbee_address always returns Zigbee variant")
    };
    assert_eq!(z.ieee_address, 0x00124B0018ED1234);
    assert_eq!(z.endpoint, 2);
    assert_eq!(z.cluster_id, 0x0006);
    assert_eq!(z.attribute_id, 0);
}

#[test]
fn test_parse_zigbee_address_invalid_format() {
    assert!(parse_zigbee_address("0x1234/1/0x0402").is_err());
    assert!(parse_zigbee_address("0x1234/1/0x0402/0/extra").is_err());
    assert!(parse_zigbee_address("not_a_number/1/0x0402/0").is_err());
    assert!(parse_zigbee_address("0x1234/999/0x0402/0").is_err());
}

#[test]
fn test_parse_zigbee_via_parse_address() {
    let addr = parse_address("zigbee", "0x00124B0018ED1234/1/0x0402/0x0000").unwrap();
    assert!(matches!(addr, ProtocolAddress::Zigbee(_)));
}

#[test]
fn test_parse_matter_address_hex() {
    let addr = parse_matter_address("1/0x0402/0x0000").unwrap();
    let ProtocolAddress::Matter(m) = addr else {
        unreachable!("parse_matter_address always returns Matter variant")
    };
    assert_eq!(m.endpoint, 1);
    assert_eq!(m.cluster_id, 0x0402);
    assert_eq!(m.attribute_id, 0x0000);
}

#[test]
fn test_parse_matter_address_decimal() {
    let addr = parse_matter_address("1/6/0").unwrap();
    let ProtocolAddress::Matter(m) = addr else {
        unreachable!("parse_matter_address always returns Matter variant")
    };
    assert_eq!(m.endpoint, 1);
    assert_eq!(m.cluster_id, 6);
    assert_eq!(m.attribute_id, 0);
}

#[test]
fn test_parse_matter_address_mixed() {
    let addr = parse_matter_address("2/0x0201/18").unwrap();
    let ProtocolAddress::Matter(m) = addr else {
        unreachable!("parse_matter_address always returns Matter variant")
    };
    assert_eq!(m.endpoint, 2);
    assert_eq!(m.cluster_id, 0x0201);
    assert_eq!(m.attribute_id, 18);
}

#[test]
fn test_parse_matter_address_via_parse_address() {
    let addr = parse_address("matter", "1/0x0006/0x0000").unwrap();
    let ProtocolAddress::Matter(m) = addr else {
        unreachable!("matter protocol should return Matter variant")
    };
    assert_eq!(m.endpoint, 1);
    assert_eq!(m.cluster_id, 0x0006);
    assert_eq!(m.attribute_id, 0x0000);
}

#[test]
fn test_parse_matter_address_case_insensitive() {
    assert!(parse_address("Matter", "1/6/0").is_ok());
    assert!(parse_address("MATTER", "1/6/0").is_ok());
}

#[test]
fn test_parse_matter_address_invalid_format() {
    assert!(parse_matter_address("1/6").is_err());
    assert!(parse_matter_address("1/6/0/extra").is_err());
    assert!(parse_matter_address("").is_err());
}

#[test]
fn test_parse_matter_address_invalid_endpoint() {
    assert!(parse_matter_address("abc/6/0").is_err());
}

#[test]
fn test_parse_matter_address_invalid_hex() {
    assert!(parse_matter_address("1/0xGGGG/0").is_err());
}

#[test]
fn test_matter_address_equality() {
    let a = MatterAddress::new(1, 0x0006, 0x0000);
    let b = MatterAddress::new(1, 6, 0);
    assert_eq!(a, b);

    let c = MatterAddress::new(2, 0x0006, 0x0000);
    assert_ne!(a, c);
}

#[test]
fn test_parse_slash_format() {
    let addr = parse_iec61850_address("simpleIOGenericIO/GGIO1$MX$AnIn1$mag$f").unwrap();
    if let ProtocolAddress::Iec61850(a) = addr {
        assert_eq!(a.domain, "simpleIOGenericIO");
        assert_eq!(a.item, "GGIO1$MX$AnIn1$mag$f");
    } else {
        panic!("wrong variant");
    }
}

#[test]
fn test_parse_colon_format() {
    let addr = parse_iec61850_address("LD0:LN0$MX$Val$mag$f").unwrap();
    if let ProtocolAddress::Iec61850(a) = addr {
        assert_eq!(a.domain, "LD0");
        assert_eq!(a.item, "LN0$MX$Val$mag$f");
    } else {
        panic!("wrong variant");
    }
}

// ── further cases ──

#[test]
fn modbus_errors_name_the_field() {
    assert_eq!(parse_modbus_address("1"), Err(AddressError::InvalidModbusFormat));
    assert_eq!(parse_modbus_address("abc:100"), Err(AddressError::Invalid(AddressField::SlaveId)));
    assert_eq!(parse_modbus_address("1:xyz"), Err(AddressError::Invalid(AddressField::Register)));
    assert_eq!(
        parse_modbus_address("1:100:bad"),
        Err(AddressError::Invalid(AddressField::FunctionCode))
    );
    assert_eq!(
        parse_modbus_address("+7:+8"),
        Ok(ProtocolAddress::Modbus(comsrv_protocols::address::ModbusAddress {
            slave_id: 7,
            register: 8,
            function_code: 3,
            format: comsrv_protocols::point::DataFormat::UInt16,
            byte_order: comsrv_protocols::point::ByteOrder::Abcd,
            bit_position: None,
        }))
    );
}

#[test]
fn iec104_empty_type_id_is_zero() {
    let ProtocolAddress::Iec104(i) = parse_iec104_address("5:").unwrap() else {
        unreachable!()
    };
    assert_eq!(i.ioa, 5);
    assert_eq!(i.type_id, 0);
    assert_eq!(parse_iec104_address(":1"), Err(AddressError::Invalid(AddressField::Ioa)));
}

#[test]
fn opcua_error_kinds() {
    assert_eq!(parse_opcua_address("ns=2i=1234"), Err(AddressError::InvalidOpcUaFormat));
    assert_eq!(
        parse_opcua_address("ns=abc;i=1234"),
        Err(AddressError::Invalid(AddressField::Namespace))
    );
    assert_eq!(parse_opcua_address("ns=2;x=1"), Err(AddressError::InvalidOpcUaNodeId));
    let ProtocolAddress::OpcUa(o) = parse_opcua_address("g=abc").unwrap() else { unreachable!() };
    assert_eq!(o.node_id, "g=abc");
}

#[test]
fn gpio_forms() {
    let ProtocolAddress::Gpio(g) = parse_gpio_address("17").unwrap() else { unreachable!() };
    assert_eq!(g.chip, "gpiochip0");
    assert_eq!(g.pin, 17);
    assert_eq!(g.direction, GpioDirection::Input);
    let ProtocolAddress::Gpio(g) = parse_gpio_address("gpiochip1:18").unwrap() else {
        unreachable!()
    };
    assert_eq!(g.chip, "gpiochip1");
    assert_eq!(g.pin, 18);
    assert_eq!(g.direction, GpioDirection::Input);
    let ProtocolAddress::Gpio(g) = parse_gpio_address("chip:5:OUT").unwrap() else {
        unreachable!()
    };
    assert_eq!(g.direction, GpioDirection::Output);
    let ProtocolAddress::Gpio(g) = parse_gpio_address("chip:5:Di").unwrap() else {
        unreachable!()
    };
    assert_eq!(g.direction, GpioDirection::Input);
    assert_eq!(parse_gpio_address("chip:5:sideways"), Err(AddressError::InvalidGpioDirection));
    assert_eq!(parse_gpio_address("x"), Err(AddressError::Invalid(AddressField::GpioPin)));
}

#[test]
fn ble_trims_and_errors() {
    let ProtocolAddress::Ble(b) = parse_ble_address("  180f / 2a19 :notify ").unwrap() else {
        unreachable!()
    };
    assert_eq!(b.service_uuid, "180f");
    assert_eq!(b.characteristic_uuid, "2a19");
    assert!(b.notify);
    assert_eq!(parse_ble_address("180f2a19"), Err(AddressError::InvalidBleFormat));
    assert_eq!(parse_ble_address(" /2a19"), Err(AddressError::EmptyBleUuid));
}

#[test]
fn zigbee_and_matter_error_kinds() {
    assert_eq!(parse_zigbee_address("0x1234/1/0x0402"), Err(AddressError::InvalidZigbeeFormat));
    assert_eq!(
        parse_zigbee_address("0x1234/999/0x0402/0"),
        Err(AddressError::Invalid(AddressField::Endpoint))
    );
    assert_eq!(
        parse_zigbee_address("0xZZ/1/0x0402/0"),
        Err(AddressError::InvalidHex(AddressField::IeeeAddr))
    );
    assert_eq!(parse_matter_address("1/6"), Err(AddressError::InvalidMatterFormat));
    assert_eq!(
        parse_matter_address("1/0xGGGG/0"),
        Err(AddressError::InvalidHex(AddressField::ClusterId))
    );
    assert_eq!(
        parse_matter_address(" 1/6/0"),
        Err(AddressError::Invalid(AddressField::Endpoint))
    );
    assert_eq!(
        parse_matter_address("1/ 6 / 0X1F"),
        Ok(ProtocolAddress::Matter(MatterAddress::new(1, 6, 0x1f)))
    );
}

#[test]
fn iec61850_dots_become_dollars() {
    let ProtocolAddress::Iec61850(a) = parse_iec61850_address("LD0/LLN0.ST.Mod.stVal").unwrap()
    else {
        unreachable!()
    };
    assert_eq!(a.domain, "LD0");
    assert_eq!(a.item, "LLN0$ST$Mod$stVal");
    assert_eq!(parse_iec61850_address("nodomain"), Err(AddressError::InvalidIec61850Address));
    assert_eq!(parse_iec61850_address("/item"), Err(AddressError::InvalidIec61850Address));
}

#[test]
fn dispatch_other_protocols() {
    assert_eq!(
        parse_address("CAN", "0x100:0:0:16"),
        Ok(ProtocolAddress::Generic("0x100:0:0:16".to_string()))
    );
    assert!(matches!(parse_address("dl645", "0x02010100"), Ok(ProtocolAddress::Dl645(_))));
    assert!(matches!(parse_address("GPIO", "17"), Ok(ProtocolAddress::Gpio(_))));
    assert!(matches!(parse_address("Iec61850", "a/b"), Ok(ProtocolAddress::Iec61850(_))));
    assert_eq!(parse_address("modbusx", "1:1"), Err(AddressError::UnknownProtocol));
}
