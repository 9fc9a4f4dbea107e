//! Request/answer scenarios of the simulated Modbus device, driven through its
//! request handler with a minimal client.
use comsrv_protocols::modbus_mock::{pdu_length, ModbusException, MockModbusState};

struct Client {
    tid: u16,
}

impl Client {
    fn new() -> Self {
        Client { tid: 0 }
    }

    fn call(&mut self, dev: &mut MockModbusState, unit: u8, pdu: &[u8]) -> Result<Vec<u8>, u8> {
        self.tid = self.tid.wrapping_add(1);
        let resp = dev.handle_request(self.tid, unit, pdu);
        assert_eq!(u16::from_be_bytes([resp[0], resp[1]]), self.tid);
        assert_eq!(&resp[2..4], &[0, 0]);
        assert_eq!(u16::from_be_bytes([resp[4], resp[5]]) as usize, resp.len() - 6);
        assert_eq!(resp[6], unit);
        if resp[7] & 0x80 != 0 {
            assert_eq!(resp[7], pdu[0] | 0x80);
            return Err(resp[8]);
        }
        assert_eq!(resp[7], pdu[0]);
        Ok(resp[8..].to_vec())
    }

    fn read_regs(&mut self, dev: &mut MockModbusState, fc: u8, unit: u8, start: u16, qty: u16) -> Result<Vec<u16>, u8> {
        let s = start.to_be_bytes();
        let q = qty.to_be_bytes();
        let body = self.call(dev, unit, &[fc, s[0], s[1], q[0], q[1]])?;
        assert_eq!(body[0] as usize, 2 * qty as usize);
        Ok(body[1..].chunks(2).map(|c| u16::from_be_bytes([c[0], c[1]])).collect())
    }

    fn read_bits(&mut self, dev: &mut MockModbusState, fc: u8, unit: u8, start: u16, qty: u16) -> Result<Vec<bool>, u8> {
        let s = start.to_be_bytes();
        let q = qty.to_be_bytes();
        let body = self.call(dev, unit, &[fc, s[0], s[1], q[0], q[1]])?;
        assert_eq!(body[0] as usize, (qty as usize + 7) / 8);
        Ok((0..qty as usize).map(|i| body[1 + i / 8] & (1 << (i % 8)) != 0).collect())
    }

    fn write_05(&mut self, dev: &mut MockModbusState, unit: u8, addr: u16, on: bool) -> Result<(), u8> {
        let a = addr.to_be_bytes();
        let v: u16 = if on { 0xFF00 } else { 0x0000 };
        let v = v.to_be_bytes();
        let pdu = [0x05, a[0], a[1], v[0], v[1]];
        let body = self.call(dev, unit, &pdu)?;
        assert_eq!(body, pdu[1..].to_vec());
        Ok(())
    }

    fn write_06(&mut self, dev: &mut MockModbusState, unit: u8, addr: u16, value: u16) -> Result<(), u8> {
        let a = addr.to_be_bytes();
        let v = value.to_be_bytes();
        let pdu = [0x06, a[0], a[1], v[0], v[1]];
        let body = self.call(dev, unit, &pdu)?;
        assert_eq!(body, pdu[1..].to_vec());
        Ok(())
    }

    fn write_0f(&mut self, dev: &mut MockModbusState, unit: u8, start: u16, coils: &[bool]) -> Result<(), u8> {
        let s = start.to_be_bytes();
        let q = (coils.len() as u16).to_be_bytes();
        let mut bytes = vec![0u8; (coils.len() + 7) / 8];
        for (i, c) in coils.iter().enumerate() {
            if *c {
                bytes[i / 8] |= 1 << (i % 8);
            }
        }
        let mut pdu = vec![0x0F, s[0], s[1], q[0], q[1], bytes.len() as u8];
        pdu.extend_from_slice(&bytes);
        let body = self.call(dev, unit, &pdu)?;
        assert_eq!(body, pdu[1..5].to_vec());
        Ok(())
    }

    fn write_10(&mut self, dev: &mut MockModbusState, unit: u8, start: u16, values: &[u16]) -> Result<(), u8> {
        let s = start.to_be_bytes();
        let q = (values.len() as u16).to_be_bytes();
        let mut pdu = vec![0x10, s[0], s[1], q[0], q[1], (2 * values.len()) as u8];
        for v in values {
            pdu.extend_from_slice(&v.to_be_bytes());
        }
        let body = self.call(dev, unit, &pdu)?;
        assert_eq!(body, pdu[1..5].to_vec());
        Ok(())
    }
}

#[test]
fn test_fc01_read_coils_single() {
    let mut dev = MockModbusState::new();
    dev.set_coil(0, true);
    let result = Client::new().read_bits(&mut dev, 0x01, 1, 0, 1).unwrap();
    assert_eq!(result, vec![true]);
}

#[test]
fn test_fc01_read_coils_multiple() {
    let mut dev = MockModbusState::new();
    dev.set_coil(10, true);
    dev.set_coil(11, false);
    dev.set_coil(12, true);
    dev.set_coil(13, false);
    dev.set_coil(14, true);
    let result = Client::new().read_bits(&mut dev, 0x01, 1, 10, 5).unwrap();
    assert_eq!(result, vec![true, false, true, false, true]);
}

#[test]
fn test_fc01_read_coils_unset_returns_false() {
    let mut dev = MockModbusState::new();
    let result = Client::new().read_bits(&mut dev, 0x01, 1, 100, 3).unwrap();
    assert_eq!(result, vec![false, false, false]);
}

#[test]
fn test_fc02_read_discrete_inputs() {
    let mut dev = MockModbusState::new();
    dev.set_discrete_input(0, true);
    dev.set_discrete_input(1, true);
    dev.set_discrete_input(2, false);
    let result = Client::new().read_bits(&mut dev, 0x02, 1, 0, 3).unwrap();
    assert_eq!(result, vec![true, true, false]);
}

#[test]
fn test_fc03_read_holding_registers_single() {
    let mut dev = MockModbusState::new();
    dev.set_register(100, 0x1234);
    let result = Client::new().read_regs(&mut dev, 0x03, 1, 100, 1).unwrap();
    assert_eq!(result, vec![0x1234]);
}

#[test]
fn test_fc03_read_holding_registers_multiple() {
    let mut dev = MockModbusState::new();
    dev.set_registers(100, &[0x422A, 0x0000]);
    let result = Client::new().read_regs(&mut dev, 0x03, 1, 100, 2).unwrap();
    assert_eq!(result, vec![0x422A, 0x0000]);
    let bytes = [(result[0] >> 8) as u8, result[0] as u8, (result[1] >> 8) as u8, result[1] as u8];
    let value = f32::from_be_bytes(bytes);
    assert!((value - 42.5).abs() < 0.001);
}

#[test]
fn test_fc03_read_unset_registers_returns_zero() {
    let mut dev = MockModbusState::new();
    let result = Client::new().read_regs(&mut dev, 0x03, 1, 200, 3).unwrap();
    assert_eq!(result, vec![0, 0, 0]);
}

#[test]
fn test_fc04_read_input_registers() {
    let mut dev = MockModbusState::new();
    dev.set_input_register(0, 0xABCD);
    dev.set_input_register(1, 0xEF01);
    let result = Client::new().read_regs(&mut dev, 0x04, 1, 0, 2).unwrap();
    assert_eq!(result, vec![0xABCD, 0xEF01]);
}

#[test]
fn test_fc05_write_single_coil_on() {
    let mut dev = MockModbusState::new();
    Client::new().write_05(&mut dev, 1, 50, true).unwrap();
    assert_eq!(dev.get_coil(50), Some(true));
}

#[test]
fn test_fc05_write_single_coil_off() {
    let mut dev = MockModbusState::new();
    dev.set_coil(60, true);
    Client::new().write_05(&mut dev, 1, 60, false).unwrap();
    assert_eq!(dev.get_coil(60), Some(false));
}

#[test]
fn test_fc06_write_single_register() {
    let mut dev = MockModbusState::new();
    Client::new().write_06(&mut dev, 1, 300, 0x5678).unwrap();
    assert_eq!(dev.get_register(300), Some(0x5678));
}

#[test]
fn test_fc06_write_then_read() {
    let mut dev = MockModbusState::new();
    let mut client = Client::new();
    client.write_06(&mut dev, 1, 400, 0xBEEF).unwrap();
    let result = client.read_regs(&mut dev, 0x03, 1, 400, 1).unwrap();
    assert_eq!(result, vec![0xBEEF]);
}

#[test]
fn test_fc0f_write_multiple_coils() {
    let mut dev = MockModbusState::new();
    let coils = vec![true, false, true, true, false];
    Client::new().write_0f(&mut dev, 1, 100, &coils).unwrap();
    assert_eq!(dev.get_coil(100), Some(true));
    assert_eq!(dev.get_coil(101), Some(false));
    assert_eq!(dev.get_coil(102), Some(true));
    assert_eq!(dev.get_coil(103), Some(true));
    assert_eq!(dev.get_coil(104), Some(false));
}

#[test]
fn test_fc10_write_multiple_registers() {
    let mut dev = MockModbusState::new();
    let values = vec![0x1111, 0x2222, 0x3333, 0x4444];
    Client::new().write_10(&mut dev, 1, 500, &values).unwrap();
    assert_eq!(dev.get_register(500), Some(0x1111));
    assert_eq!(dev.get_register(501), Some(0x2222));
    assert_eq!(dev.get_register(502), Some(0x3333));
    assert_eq!(dev.get_register(503), Some(0x4444));
}

#[test]
fn test_fc10_write_then_read() {
    let mut dev = MockModbusState::new();
    let mut client = Client::new();
    client.write_10(&mut dev, 1, 600, &[0xAAAA, 0xBBBB]).unwrap();
    let result = client.read_regs(&mut dev, 0x03, 1, 600, 2).unwrap();
    assert_eq!(result, vec![0xAAAA, 0xBBBB]);
}

#[test]
fn test_error_injection_illegal_data_address() {
    let mut dev = MockModbusState::new();
    dev.inject_error(0x03, ModbusException::IllegalDataAddress, 1);
    let result = Client::new().read_regs(&mut dev, 0x03, 1, 100, 1);
    assert_eq!(result, Err(0x02));
}

#[test]
fn test_error_injection_one_time() {
    let mut dev = MockModbusState::new();
    dev.set_register(100, 0x1234);
    dev.inject_error(0x03, ModbusException::ServerDeviceBusy, 1);
    let mut client = Client::new();
    assert!(client.read_regs(&mut dev, 0x03, 1, 100, 1).is_err());
    assert_eq!(client.read_regs(&mut dev, 0x03, 1, 100, 1), Ok(vec![0x1234]));
}

#[test]
fn test_multiple_rapid_requests() {
    let mut dev = MockModbusState::new();
    for i in 0..10u16 {
        dev.set_register(i, i * 100);
    }
    let mut client = Client::new();
    for i in 0..10u16 {
        assert_eq!(client.read_regs(&mut dev, 0x03, 1, i, 1), Ok(vec![i * 100]));
    }
    assert_eq!(dev.request_count(), 10);
}

#[test]
fn test_set_get_register() {
    let mut dev = MockModbusState::new();
    dev.set_register(100, 0x1234);
    assert_eq!(dev.get_register(100), Some(0x1234));
    assert_eq!(dev.get_register(101), None);
}

#[test]
fn test_set_get_coil() {
    let mut dev = MockModbusState::new();
    dev.set_coil(0, true);
    dev.set_coil(1, false);
    assert_eq!(dev.get_coil(0), Some(true));
    assert_eq!(dev.get_coil(1), Some(false));
    assert_eq!(dev.get_coil(2), None);
}

#[test]
fn test_set_registers_batch() {
    let mut dev = MockModbusState::new();
    dev.set_registers(100, &[0x1111, 0x2222, 0x3333]);
    assert_eq!(dev.get_register(100), Some(0x1111));
    assert_eq!(dev.get_register(101), Some(0x2222));
    assert_eq!(dev.get_register(102), Some(0x3333));
}

#[test]
fn test_error_injection() {
    let mut dev = MockModbusState::new();
    dev.inject_error(0x03, ModbusException::IllegalDataAddress, 2);
    assert!(dev.has_injection_for(0x03));
    dev.clear_error_injections();
    assert!(!dev.has_injection_for(0x03));
    assert_eq!(Client::new().read_regs(&mut dev, 0x03, 1, 0, 1), Ok(vec![0]));
}

#[test]
fn test_mixed_read_write_operations() {
    let mut dev = MockModbusState::new();
    let mut client = Client::new();
    client.write_06(&mut dev, 1, 0, 100).unwrap();
    assert_eq!(client.read_regs(&mut dev, 0x03, 1, 0, 1), Ok(vec![100]));
    client.write_06(&mut dev, 1, 1, 200).unwrap();
    assert_eq!(client.read_regs(&mut dev, 0x03, 1, 0, 2), Ok(vec![100, 200]));
    client.write_10(&mut dev, 1, 2, &[300, 400]).unwrap();
    assert_eq!(client.read_regs(&mut dev, 0x03, 1, 0, 4), Ok(vec![100, 200, 300, 400]));
}

#[test]
fn test_float32_big_endian() {
    let mut dev = MockModbusState::new();
    let value: f32 = 123.456;
    let bytes = value.to_be_bytes();
    let reg0 = u16::from_be_bytes([bytes[0], bytes[1]]);
    let reg1 = u16::from_be_bytes([bytes[2], bytes[3]]);
    dev.set_registers(100, &[reg0, reg1]);
    let result = Client::new().read_regs(&mut dev, 0x03, 1, 100, 2).unwrap();
    let decoded_bytes = [(result[0] >> 8) as u8, result[0] as u8, (result[1] >> 8) as u8, result[1] as u8];
    let decoded = f32::from_be_bytes(decoded_bytes);
    assert!((decoded - 123.456).abs() < 0.001);
}

#[test]
fn test_int32_signed() {
    let mut dev = MockModbusState::new();
    let value: i32 = -1000;
    let bytes = value.to_be_bytes();
    let reg0 = u16::from_be_bytes([bytes[0], bytes[1]]);
    let reg1 = u16::from_be_bytes([bytes[2], bytes[3]]);
    dev.set_registers(200, &[reg0, reg1]);
    let result = Client::new().read_regs(&mut dev, 0x03, 1, 200, 2).unwrap();
    let decoded_bytes = [(result[0] >> 8) as u8, result[0] as u8, (result[1] >> 8) as u8, result[1] as u8];
    assert_eq!(i32::from_be_bytes(decoded_bytes), -1000);
}

#[test]
fn test_raw_fc03_response_format() {
    let mut dev = MockModbusState::new();
    dev.set_register(100, 0x1234);
    let request: [u8; 12] = [0x00, 0x01, 0x00, 0x00, 0x00, 0x06, 0x01, 0x03, 0x00, 0x64, 0x00, 0x01];
    let header: [u8; 7] = request[..7].try_into().unwrap();
    let pdu_len = pdu_length(&header).unwrap();
    assert_eq!(pdu_len, 5);
    let tid = u16::from_be_bytes([request[0], request[1]]);
    let response = dev.handle_request(tid, request[6], &request[7..7 + pdu_len]);
    assert_eq!(response[0..2], [0x00, 0x01], "Transaction ID mismatch");
    assert_eq!(response[2..4], [0x00, 0x00], "Protocol ID should be 0");
    let length = u16::from_be_bytes([response[4], response[5]]);
    assert_eq!(length, 5, "Length should be 5 (unit_id + FC + BC + 2 bytes data)");
    assert_eq!(response[6], 0x01, "Unit ID mismatch");
    assert_eq!(response[7], 0x03, "Function code mismatch");
    assert_eq!(response[8], 0x02, "Byte count should be 2");
    let reg_value = u16::from_be_bytes([response[9], response[10]]);
    assert_eq!(reg_value, 0x1234, "Register value mismatch");
    assert_eq!(response.len(), 11, "Response should be exactly 11 bytes");
}
