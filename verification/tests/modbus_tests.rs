use comsrv_protocols::modbus_mock::{
    build_exception_response, coil_write_overruns, pdu_length, ModbusException, MockModbusState,
};
use comsrv_protocols::address::{ModbusAddress, ProtocolAddress};
use comsrv_protocols::modbus_poll::{
    build_register_segments, plan_point_group, segment_point_registers, segment_request, GroupRead,
    RegisterSegment,
};
use comsrv_protocols::point::{ByteOrder, DataFormat, PointConfig, PointType};

fn modbus_point(id: u32, fc: u8, register: u16, format: DataFormat) -> PointConfig {
    PointConfig {
        id,
        point_type: PointType::Telemetry,
        name: None,
        address: ProtocolAddress::Modbus(ModbusAddress {
            slave_id: 7,
            register,
            function_code: fc,
            format,
            byte_order: ByteOrder::Abcd,
            bit_position: None,
        }),
        enabled: true,
    }
}

fn mbap(tid: u16, unit: u8, pdu: &[u8]) -> Vec<u8> {
    let len = (pdu.len() + 1) as u16;
    let mut v = vec![(tid >> 8) as u8, tid as u8, 0, 0, (len >> 8) as u8, len as u8, unit];
    v.extend_from_slice(pdu);
    v
}

#[test]
fn write_single_register_then_read_back() {
    let mut dev = MockModbusState::new();
    let echo = dev.handle_request(1, 1, &[0x06, 0x00, 0x0A, 0x12, 0x34]);
    assert_eq!(echo, mbap(1, 1, &[0x06, 0x00, 0x0A, 0x12, 0x34]));
    let read = dev.handle_request(2, 1, &[0x03, 0x00, 0x0A, 0x00, 0x01]);
    assert_eq!(read, mbap(2, 1, &[0x03, 0x02, 0x12, 0x34]));
    assert_eq!(dev.get_register(10), Some(0x1234));
    assert_eq!(dev.request_count(), 2);
}

#[test]
fn unset_registers_read_as_zero() {
    let mut dev = MockModbusState::new();
    dev.set_register(1, 7);
    let read = dev.handle_request(5, 3, &[0x03, 0x00, 0x00, 0x00, 0x03]);
    assert_eq!(read, mbap(5, 3, &[0x03, 0x06, 0x00, 0x00, 0x00, 0x07, 0x00, 0x00]));
}

#[test]
fn write_multiple_registers_then_read_back() {
    let mut dev = MockModbusState::new();
    let ack = dev.handle_request(1, 1, &[0x10, 0x00, 0x64, 0x00, 0x02, 0x04, 0xAB, 0xCD, 0x00, 0x01]);
    assert_eq!(ack, mbap(1, 1, &[0x10, 0x00, 0x64, 0x00, 0x02]));
    assert_eq!(dev.get_register(100), Some(0xABCD));
    assert_eq!(dev.get_register(101), Some(0x0001));
    let read = dev.handle_request(2, 1, &[0x03, 0x00, 0x64, 0x00, 0x02]);
    assert_eq!(read, mbap(2, 1, &[0x03, 0x04, 0xAB, 0xCD, 0x00, 0x01]));
}

#[test]
fn coils_write_and_read() {
    let mut dev = MockModbusState::new();
    let echo = dev.handle_request(1, 1, &[0x05, 0x00, 0x03, 0xFF, 0x00]);
    assert_eq!(echo, mbap(1, 1, &[0x05, 0x00, 0x03, 0xFF, 0x00]));
    assert_eq!(dev.get_coil(3), Some(true));
    let read = dev.handle_request(2, 1, &[0x01, 0x00, 0x00, 0x00, 0x0A]);
    // Coil 3 set: bit 3 of the first byte.
    assert_eq!(read, mbap(2, 1, &[0x01, 0x02, 0x08, 0x00]));
    // A value other than 0x0000 / 0xFF00 is refused.
    let bad = dev.handle_request(3, 1, &[0x05, 0x00, 0x03, 0x12, 0x34]);
    assert_eq!(bad, build_exception_response(3, 1, 0x05, ModbusException::IllegalDataValue));
}

#[test]
fn write_multiple_coils() {
    let mut dev = MockModbusState::new();
    let ack = dev.handle_request(1, 1, &[0x0F, 0x00, 0x00, 0x00, 0x0A, 0x02, 0x05, 0x02]);
    assert_eq!(ack, mbap(1, 1, &[0x0F, 0x00, 0x00, 0x00, 0x0A]));
    assert_eq!(dev.get_coil(0), Some(true));
    assert_eq!(dev.get_coil(1), Some(false));
    assert_eq!(dev.get_coil(2), Some(true));
    assert_eq!(dev.get_coil(9), Some(true));
}

#[test]
fn input_registers_and_discrete_inputs() {
    let mut dev = MockModbusState::new();
    dev.set_input_register(0, 0x0102);
    dev.set_discrete_input(0, true);
    assert_eq!(
        dev.handle_request(1, 1, &[0x04, 0x00, 0x00, 0x00, 0x01]),
        mbap(1, 1, &[0x04, 0x02, 0x01, 0x02])
    );
    assert_eq!(
        dev.handle_request(2, 1, &[0x02, 0x00, 0x00, 0x00, 0x01]),
        mbap(2, 1, &[0x02, 0x01, 0x01])
    );
}

#[test]
fn illegal_function_and_bad_quantity() {
    let mut dev = MockModbusState::new();
    assert_eq!(
        dev.handle_request(1, 1, &[0x2B, 0x00]),
        vec![0x00, 0x01, 0x00, 0x00, 0x00, 0x03, 0x01, 0xAB, 0x01]
    );
    assert_eq!(
        dev.handle_request(2, 1, &[0x03, 0x00, 0x00, 0x00, 0x7E]),
        build_exception_response(2, 1, 0x03, ModbusException::IllegalDataValue)
    );
    assert_eq!(
        dev.handle_request(3, 1, &[0x03, 0x00]),
        build_exception_response(3, 1, 0x03, ModbusException::IllegalDataValue)
    );
}

#[test]
fn injected_errors_count_down() {
    let mut dev = MockModbusState::new();
    dev.inject_error(0x03, ModbusException::ServerDeviceBusy, 2);
    let busy = build_exception_response(1, 1, 0x03, ModbusException::ServerDeviceBusy);
    assert_eq!(dev.handle_request(1, 1, &[0x03, 0x00, 0x00, 0x00, 0x01]), busy);
    assert_eq!(dev.handle_request(1, 1, &[0x03, 0x00, 0x00, 0x00, 0x01]), busy);
    assert_eq!(
        dev.handle_request(1, 1, &[0x03, 0x00, 0x00, 0x00, 0x01]),
        mbap(1, 1, &[0x03, 0x02, 0x00, 0x00])
    );
    // Another function is not affected.
    dev.inject_error(0x06, ModbusException::IllegalDataAddress, 0);
    assert_eq!(dev.check_error_injection(0x03), None);
    assert_eq!(dev.check_error_injection(0x06), Some(ModbusException::IllegalDataAddress));
    assert_eq!(dev.check_error_injection(0x06), Some(ModbusException::IllegalDataAddress));
    dev.clear_error_injections();
    assert_eq!(dev.check_error_injection(0x06), None);
}

#[test]
fn exception_codes() {
    assert_eq!(ModbusException::IllegalFunction.code(), 0x01);
    assert_eq!(ModbusException::IllegalDataAddress.code(), 0x02);
    assert_eq!(ModbusException::IllegalDataValue.code(), 0x03);
    assert_eq!(ModbusException::ServerDeviceBusy.code(), 0x06);
}

#[test]
fn mbap_pdu_length() {
    assert_eq!(pdu_length(&[0, 1, 0, 0, 0, 6, 1]), Some(5));
    assert_eq!(pdu_length(&[0, 1, 0, 1, 0, 6, 1]), None);
    assert_eq!(pdu_length(&[0, 1, 0, 0, 0, 1, 1]), None);
    assert_eq!(pdu_length(&[0, 1, 0, 0, 0, 255, 1]), None);
    assert_eq!(pdu_length(&[0, 1, 0, 0, 0, 254, 1]), Some(253));
}

#[test]
fn register_segments_group_close_points() {
    let pts: Vec<(u16, u16, u32)> = vec![(0, 2, 1), (2, 1, 2), (10, 2, 3), (100, 1, 4)];
    let segs = build_register_segments(&pts, 10, 125);
    assert_eq!(segs.len(), 2);
    assert_eq!(segs[0].start_address, 0);
    assert_eq!(segs[0].end_address, 12);
    assert_eq!(segs[0].points.len(), 3);
    assert_eq!(segs[1].start_address, 100);
    assert_eq!(segs[1].end_address, 101);
}

#[test]
fn register_segments_respect_batch_size() {
    let pts: Vec<(u16, u16, u32)> = vec![(0, 2, 1), (2, 2, 2), (4, 2, 3)];
    let segs = build_register_segments(&pts, 0, 4);
    assert_eq!(segs.len(), 2);
    assert_eq!(segs[0].end_address, 4);
    assert_eq!(segs[1].start_address, 4);
    assert!(build_register_segments::<u32>(&[], 5, 5).is_empty());
}

#[test]
fn segment_registers_split_per_point() {
    let pts: Vec<(u16, u16, u32)> = vec![(10, 2, 1), (12, 1, 2), (20, 2, 3)];
    let segs = build_register_segments(&pts, 10, 125);
    assert_eq!(segs.len(), 1);
    let regs: Vec<u16> = (0..12).map(|x| 100 + x).collect();
    let split = segment_point_registers(&segs[0], &regs);
    assert_eq!(split, vec![(1, vec![100, 101]), (2, vec![102]), (3, vec![110, 111])]);
    // A short read leaves out the points it does not cover.
    let split = segment_point_registers(&segs[0], &regs[..5]);
    assert_eq!(split, vec![(1, vec![100, 101]), (2, vec![102])]);
}

#[test]
fn overrunning_coil_write_detected() {
    // 16 coils announced, one data byte carried.
    assert!(coil_write_overruns(0x0F, &[0x00, 0x00, 0x00, 0x10, 0x01, 0xFF]));
    assert!(!coil_write_overruns(0x0F, &[0x00, 0x00, 0x00, 0x08, 0x01, 0xFF]));
    assert!(!coil_write_overruns(0x10, &[0x00, 0x00, 0x00, 0x10, 0x01, 0xFF]));
    let mut dev = MockModbusState::new();
    assert!(!dev.has_injection_for(0x0F));
    dev.inject_error(0, ModbusException::ServerDeviceBusy, 1);
    assert!(dev.has_injection_for(0x0F));
}

#[test]
fn group_plan_empty_or_foreign_reads_nothing() {
    assert!(matches!(plan_point_group(&[], 100, 10), GroupRead::Nothing));
    let mut p = modbus_point(1, 3, 0, DataFormat::UInt16);
    p.address = ProtocolAddress::Generic("x".to_string());
    assert!(matches!(plan_point_group(&[p], 100, 10), GroupRead::Nothing));
}

#[test]
fn group_plan_reads_coils_one_by_one() {
    let mut other = modbus_point(9, 1, 0, DataFormat::Bool);
    other.address = ProtocolAddress::Generic("x".to_string());
    let pts = vec![modbus_point(1, 1, 5, DataFormat::Bool), other, modbus_point(2, 1, 9, DataFormat::Bool)];
    match plan_point_group(&pts, 100, 10) {
        GroupRead::Individually { slave_id, function_code, points } => {
            assert_eq!(slave_id, 7);
            assert_eq!(function_code, 1);
            assert_eq!(points, vec![(0, 5), (2, 9)]);
        },
        other => panic!("unexpected plan {:?}", other),
    }
}

#[test]
fn group_plan_batches_registers_by_format() {
    let pts = vec![
        modbus_point(1, 3, 100, DataFormat::Float32),
        modbus_point(2, 3, 102, DataFormat::UInt16),
        modbus_point(3, 3, 200, DataFormat::UInt64),
    ];
    match plan_point_group(&pts, 100, 10) {
        GroupRead::Batched { slave_id, function_code, segments } => {
            assert_eq!(slave_id, 7);
            assert_eq!(function_code, 3);
            assert_eq!(segments.len(), 2);
            assert_eq!((segments[0].start_address, segments[0].end_address), (100, 103));
            assert_eq!(segments[0].points, vec![(100, 2, 0), (102, 1, 1)]);
            assert_eq!((segments[1].start_address, segments[1].end_address), (200, 204));
            assert_eq!(segments[1].points, vec![(200, 4, 2)]);
        },
        other => panic!("unexpected plan {:?}", other),
    }
}

#[test]
fn segment_request_only_for_register_reads() {
    let seg = RegisterSegment { start_address: 100, end_address: 103, points: vec![(100u16, 3u16, 0usize)] };
    assert_eq!(segment_request(3, &seg), Some((100, 3)));
    assert_eq!(segment_request(4, &seg), Some((100, 3)));
    assert_eq!(segment_request(6, &seg), None);
}
