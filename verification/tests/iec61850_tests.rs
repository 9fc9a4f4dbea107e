use comsrv_protocols::iec61850::{next_invoke_id, read_step, Iec61850ParamsConfig, ReadOutcome, ReadStep};
use comsrv_protocols::iec61850_mms::{
    build_read_request, build_write_bool_request, parse_data, parse_read_response,
    parse_write_response, MmsError, MmsValue,
};
use comsrv_protocols::iec61850_transport::{
    check_connect_confirm, mms_connect_payload, parse_ber_len, parse_tlv, tpkt_frame,
    tpkt_payload_len, unwrap_data_pdu, wrap_data_pdu, FrameError,
};

fn hex_bytes(s: &str) -> Vec<u8> {
    let digits: Vec<u8> = s
        .bytes()
        .map(|c| match c {
            b'0'..=b'9' => c - b'0',
            b'a'..=b'f' => c - b'a' + 10,
            b'A'..=b'F' => c - b'A' + 10,
            _ => panic!("not a hex digit"),
        })
        .collect();
    digits.chunks(2).map(|p| p[0] * 16 + p[1]).collect()
}

#[test]
fn wrap_unwrap_roundtrip() {
    let mms = b"\xA0\x03\x02\x01\x01";
    let frame = wrap_data_pdu(mms);

    // Strip the TPKT header (4 bytes) to get the COTP payload.
    let cotp_payload = &frame[4..];
    let recovered = unwrap_data_pdu(cotp_payload).unwrap();
    assert_eq!(recovered, mms);
}

#[test]
fn mms_connect_payload_length() {
    // Session 24 + Presentation 67 + ACSE 20 + MMS 40.
    assert_eq!(mms_connect_payload().len(), 151);
}

#[test]
fn read_request_matches_capture() {
    let expected = hex_bytes(
        "a038020101a433a131a02f302da02ba1291a1173696d706c65494f47656e65\
         726963494f1a144747494f31244d5824416e496e31246d61672466",
    );
    let got = build_read_request(1, "simpleIOGenericIO", "GGIO1$MX$AnIn1$mag$f");
    assert_eq!(got, expected, "Read request bytes mismatch");
}

#[test]
fn parse_float_response() {
    let resp = hex_bytes("a110020101a40ba109a107870508bdc6af00");
    let (id, val) = parse_read_response(&resp).unwrap();
    assert_eq!(id, 1);
    match val {
        MmsValue::Float32(bits) => {
            assert_eq!(bits, 0xBDC6_AF00);
            let f = f32::from_bits(bits);
            assert!((f - (-0.0977f32)).abs() < 0.001, "float value mismatch: {}", f);
        },
        other => panic!("expected Float32, got {:?}", other),
    }
}

#[test]
fn tpkt_frame_header_and_length() {
    let frame = tpkt_frame(&[0xAA, 0xBB, 0xCC]);
    assert_eq!(frame, vec![0x03, 0x00, 0x00, 0x07, 0xAA, 0xBB, 0xCC]);
    assert_eq!(tpkt_payload_len(&[0x03, 0x00, 0x00, 0x07]), Ok(3));
    assert_eq!(tpkt_payload_len(&[0x02, 0x00, 0x00, 0x07]), Err(FrameError::InvalidTpktVersion(2)));
    assert_eq!(tpkt_payload_len(&[0x03, 0x00, 0x00, 0x03]), Err(FrameError::TpktLengthOutOfRange(3)));
}

#[test]
fn connect_confirm_checked() {
    assert!(check_connect_confirm(&[0x06, 0xD0, 0x00]).is_ok());
    assert!(check_connect_confirm(&[0x06, 0xE0, 0x00]).is_err());
    assert!(check_connect_confirm(&[0x06]).is_err());
}

#[test]
fn ber_length_forms() {
    assert_eq!(parse_ber_len(&[0x05]), Some((5, 1)));
    assert_eq!(parse_ber_len(&[0x81, 0x80]), Some((128, 2)));
    assert_eq!(parse_ber_len(&[0x82, 0x01, 0x00]), Some((256, 3)));
    assert_eq!(parse_ber_len(&[0x83, 0x01, 0x00, 0x00]), None);
    assert_eq!(parse_ber_len(&[]), None);
}

#[test]
fn tlv_split() {
    let buf = [0x02, 0x01, 0x07, 0xFF];
    let (rest, content) = parse_tlv(&buf, 0x02).unwrap();
    assert_eq!(content, &[0x07]);
    assert_eq!(rest, &[0xFF]);
    assert!(parse_tlv(&buf, 0x03).is_none());
}

#[test]
fn unwrap_refuses_short_payload() {
    assert!(unwrap_data_pdu(&[0x02, 0xF0]).is_none());
}

#[test]
fn parse_boolean_and_integer_data() {
    match parse_data(&[0x83, 0x01, 0x01]).unwrap() {
        MmsValue::Boolean(b) => assert!(b),
        other => panic!("expected Boolean, got {:?}", other),
    }
    match parse_data(&[0x85, 0x02, 0xFF, 0x38]).unwrap() {
        MmsValue::Integer(i) => assert_eq!(i, -200),
        other => panic!("expected Integer, got {:?}", other),
    }
}

#[test]
fn write_request_and_response() {
    let req = build_write_bool_request(3, "LD", "X", true);
    assert_eq!(req[0], 0xA0);
    // The invoke id is read from the INTEGER inside the A1 TLV.
    assert_eq!(parse_write_response(&[0xA1, 0x05, 0x02, 0x01, 0x07, 0xA5, 0x00]), Ok(7));
    assert_eq!(parse_write_response(&[0xA1, 0x02, 0x02, 0x00]), Ok(0));
    assert_eq!(
        parse_write_response(&[0xA1, 0x00, 0x02, 0x01, 0x03]),
        Err(MmsError::MissingWriteInvokeId)
    );
    assert_eq!(parse_write_response(&[0xA1, 0x03, 0x02, 0x01, 0x03]), Ok(3));
    assert_eq!(
        parse_write_response(&[0xA1, 0x02, 0xA5, 0x00]),
        Err(MmsError::MissingWriteInvokeId)
    );
    assert_eq!(parse_write_response(&[0x30, 0x00]), Err(MmsError::ExpectedConfirmedResponse));
}

#[test]
fn invoke_id_wraps_past_zero() {
    assert_eq!(next_invoke_id(1), (1, 2));
    assert_eq!(next_invoke_id(255), (255, 1));
}

#[test]
fn iec61850_defaults() {
    let p = Iec61850ParamsConfig::with_defaults("10.0.0.1:102".to_string());
    assert_eq!(p.address, "10.0.0.1:102");
    assert_eq!(p.connect_timeout_ms, 10_000);
    assert_eq!(p.request_timeout().as_millis(), 5_000);
}

#[test]
fn read_steps() {
    match read_step(7, ReadOutcome::Answer(MmsValue::Failure(10))) {
        ReadStep::Skip(f) => {
            assert_eq!(f.point_id, 7);
            assert_eq!(f.error, "MMS data-access error 10");
        },
        other => panic!("expected Skip, got {:?}", other),
    }
    match read_step(7, ReadOutcome::TimedOut) {
        ReadStep::Stop(f) => assert_eq!(f.error, "read timeout"),
        other => panic!("expected Stop, got {:?}", other),
    }
    match read_step(7, ReadOutcome::LinkFailed("reset".to_string())) {
        ReadStep::Stop(f) => assert_eq!(f.error, "reset"),
        other => panic!("expected Stop, got {:?}", other),
    }
    assert!(matches!(read_step(7, ReadOutcome::Answer(MmsValue::Boolean(true))), ReadStep::Keep(MmsValue::Boolean(true))));
}

#[test]
fn parse_visible_string_data() {
    match parse_data(&[0x8A, 0x03, b'a', b'b', b'c']).unwrap() {
        MmsValue::VisibleString(s) => assert_eq!(s, "abc"),
        other => panic!("expected VisibleString, got {:?}", other),
    }
    match parse_data(&[0x8A, 0x02, 0xFF, b'z']).unwrap() {
        MmsValue::VisibleString(s) => assert_eq!(s, "\u{FFFD}z"),
        other => panic!("expected VisibleString, got {:?}", other),
    }
}

#[test]
fn malformed_data_is_an_error() {
    let pdu = [0xA1, 0x0A, 0x02, 0x01, 0x01, 0xA4, 0x05, 0xA1, 0x03, 0x87, 0x05, 0x08];
    assert_eq!(parse_read_response(&pdu).map(|_| ()), Err(MmsError::DataOverrun));
    assert_eq!(parse_data(&[0x87, 0x05, 0x08]).map(|_| ()), Err(MmsError::DataOverrun));
    assert_eq!(parse_data(&[0x84, 0x00]).map(|_| ()), Err(MmsError::EmptyBitString));
}
