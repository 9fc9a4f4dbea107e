//! BER helpers and the COTP / Session / Presentation data-PDU framing that
//! carries MMS PDUs for IEC 61850.
use vstd::prelude::*;
use crate::bytes::push_all;

verus! {

/// TPKT version byte.
pub const TPKT_VER: u8 = 0x03;

/// BER encoding of a length: short form below 0x80, else 0x81 or 0x82 long form
/// (two bytes keep only the low 16 bits).
pub open spec fn spec_ber_len(len: nat) -> Seq<u8> {
    if len < 0x80 {
        seq![len as u8]
    } else if len < 0x100 {
        seq![0x81u8, len as u8]
    } else {
        seq![0x82u8, ((len / 256) % 256) as u8, (len % 256) as u8]
    }
}

/// Number of bytes of a BER length.
pub open spec fn spec_ber_len_size(len: nat) -> nat {
    if len < 0x80 {
        1
    } else if len < 0x100 {
        2
    } else {
        3
    }
}

/// Number of bytes required to encode `len` in BER length form.
pub fn ber_len_size(len: usize) -> (n: usize)
    ensures
        n == spec_ber_len_size(len as nat),
        n == spec_ber_len(len as nat).len(),
{
    if len < 0x80 {
        1
    } else if len < 0x100 {
        2
    } else {
        3
    }
}

/// Append a BER length to `buf`.
pub fn push_ber_len(buf: &mut Vec<u8>, len: usize)
    ensures
        final(buf)@ == old(buf)@ + spec_ber_len(len as nat),
{
    if len < 0x80 {
        buf.push(len as u8);
    } else if len < 0x100 {
        buf.push(0x81);
        buf.push(len as u8);
    } else {
        buf.push(0x82);
        buf.push(((len / 256) % 256) as u8);
        buf.push((len % 256) as u8);
    }
    assert(final(buf)@ =~= old(buf)@ + spec_ber_len(len as nat));
}

/// A BER length at the start of `buf`: (length, bytes it takes).
pub open spec fn spec_parse_ber_len(buf: Seq<u8>) -> Option<(nat, nat)> {
    if buf.len() == 0 {
        None
    } else if buf[0] < 0x80 {
        Some((buf[0] as nat, 1))
    } else if buf[0] == 0x81 {
        if buf.len() < 2 {
            None
        } else {
            Some((buf[1] as nat, 2))
        }
    } else if buf[0] == 0x82 {
        if buf.len() < 3 {
            None
        } else {
            Some(((buf[1] as nat) * 256 + buf[2] as nat, 3))
        }
    } else {
        None
    }
}

/// Parse a BER length field, returning `(length, bytes_consumed)`.
pub fn parse_ber_len(buf: &[u8]) -> (r: Option<(usize, usize)>)
    ensures
        match spec_parse_ber_len(buf@) {
            Some((l, n)) => r == Some((l as usize, n as usize)),
            None => r.is_none(),
        },
{
    if buf.len() == 0 {
        return None;
    }
    let first = buf[0];
    if first < 0x80 {
        Some((first as usize, 1))
    } else if first == 0x81 {
        if buf.len() < 2 {
            return None;
        }
        Some((buf[1] as usize, 2))
    } else if first == 0x82 {
        if buf.len() < 3 {
            return None;
        }
        Some(((buf[1] as usize) * 256 + buf[2] as usize, 3))
    } else {
        None
    }
}

/// A TLV with tag `tag` at the start of `buf`: (bytes after it, its content).
pub open spec fn spec_parse_tlv(buf: Seq<u8>, tag: u8) -> Option<(Seq<u8>, Seq<u8>)> {
    if buf.len() == 0 || buf[0] != tag {
        None
    } else {
        match spec_parse_ber_len(buf.skip(1)) {
            None => None,
            Some((len, hdr)) => {
                let start = 1 + hdr;
                let end = start + len;
                if end > buf.len() {
                    None
                } else {
                    Some((buf.subrange(end as int, buf.len() as int), buf.subrange(start as int, end as int)))
                }
            },
        }
    }
}

/// Parse a BER TLV with the expected `tag` and return `(rest, content)`.
pub fn parse_tlv(buf: &[u8], tag: u8) -> (r: Option<(&[u8], &[u8])>)
    ensures
        match spec_parse_tlv(buf@, tag) {
            Some((rest, content)) => r matches Some((a, b)) && a@ == rest && b@ == content,
            None => r.is_none(),
        },
{
    if buf.len() == 0 || buf[0] != tag {
        return None;
    }
    let tail = &buf[1..buf.len()];
    assert(tail@ =~= buf@.skip(1));
    let (len, hdr_size) = match parse_ber_len(tail) {
        Some(p) => p,
        None => {
            return None;
        },
    };
    let start = 1 + hdr_size;
    let end = start + len;
    if end > buf.len() {
        return None;
    }
    Some((&buf[end..buf.len()], &buf[start..end]))
}

/// The encoding of a TLV: tag, BER length, content.
pub open spec fn spec_tlv(tag: u8, content: Seq<u8>) -> Seq<u8> {
    seq![tag] + spec_ber_len(content.len()) + content
}

/// A BER length below 65536 reads back as itself, whatever follows it.
pub proof fn lemma_ber_len_roundtrip(len: nat, rest: Seq<u8>)
    requires
        len < 65536,
    ensures
        spec_parse_ber_len(spec_ber_len(len) + rest) == Some((len, spec_ber_len_size(len))),
{
    let b = spec_ber_len(len) + rest;
    if len >= 0x100 {
        assert(b[1] as nat * 256 + b[2] as nat == len);
    }
}

/// A TLV whose content is shorter than 65536 bytes parses back to its content and the
/// bytes after it.
pub proof fn lemma_tlv_roundtrip(tag: u8, content: Seq<u8>, rest: Seq<u8>)
    requires
        content.len() < 65536,
    ensures
        spec_parse_tlv(spec_tlv(tag, content) + rest, tag) == Some((rest, content)),
{
    let buf = spec_tlv(tag, content) + rest;
    let l = spec_ber_len(content.len());
    assert(buf.skip(1) =~= l + (content + rest));
    lemma_ber_len_roundtrip(content.len(), content + rest);
    let start = 1 + l.len();
    let end = start + content.len();
    assert(buf.subrange(end as int, buf.len() as int) =~= rest);
    assert(buf.subrange(start as int, end as int) =~= content);
}

/// Presentation fully-encoded-data header for a data PDU of `p` bytes:
/// 61 [len] 30 [len] 02 01 03 A0 [p].
pub open spec fn spec_pres_header(p: nat) -> Seq<u8> {
    let pdv_content = 3 + spec_ber_len_size(p) + 1;
    let seq_len = pdv_content + p;
    let fed_len = 1 + spec_ber_len_size(seq_len) + seq_len;
    seq![0x61u8] + spec_ber_len(fed_len) + seq![0x30u8] + spec_ber_len(seq_len) + seq![
        0x02u8,
        0x01u8,
        0x03u8,
        0xA0u8,
    ] + spec_ber_len(p)
}

/// Build the Presentation fully-encoded-data header for a data PDU.
pub fn pres_data_header(payload_len: usize) -> (h: Vec<u8>)
    requires
        payload_len <= usize::MAX - 64,
    ensures
        h@ == spec_pres_header(payload_len as nat),
        h@.len() <= 15,
{
    let pdv_content = 3 + ber_len_size(payload_len) + 1;
    let seq_len = pdv_content + payload_len;
    let fed_len = 1 + ber_len_size(seq_len) + seq_len;
    let mut h: Vec<u8> = Vec::new();
    h.push(0x61);
    push_ber_len(&mut h, fed_len);
    h.push(0x30);
    push_ber_len(&mut h, seq_len);
    h.push(0x02);
    h.push(0x01);
    h.push(0x03);
    h.push(0xA0);
    push_ber_len(&mut h, payload_len);
    assert(h@ =~= spec_pres_header(payload_len as nat));
    h
}

/// The whole data frame for an MMS PDU: TPKT header (03 00 len16), COTP DT (02 F0 80),
/// Session DT (01 00 01 00), Presentation header, PDU. The TPKT length keeps the low
/// 16 bits of the frame length.
pub open spec fn spec_data_frame(pdu: Seq<u8>) -> Seq<u8> {
    let h = spec_pres_header(pdu.len());
    let frame_len = 4 + 3 + 4 + h.len() + pdu.len();
    seq![TPKT_VER, 0x00u8, ((frame_len / 256) % 256) as u8, (frame_len % 256) as u8] + seq![
        0x02u8,
        0xF0u8,
        0x80u8,
    ] + seq![0x01u8, 0x00u8, 0x01u8, 0x00u8] + h + pdu
}

/// Build the TPKT + COTP DT + Session DT + Presentation wrapper around an MMS PDU.
pub fn wrap_data_pdu(mms_pdu: &[u8]) -> (buf: Vec<u8>)
    requires
        mms_pdu@.len() <= usize::MAX - 64,
    ensures
        buf@ == spec_data_frame(mms_pdu@),
{
    let payload_len = mms_pdu.len();
    let pres_hdr = pres_data_header(payload_len);
    let total = 3 + 4 + pres_hdr.len() + payload_len;
    let frame_len = 4 + total;
    let mut buf: Vec<u8> = Vec::with_capacity(frame_len);
    buf.push(TPKT_VER);
    buf.push(0x00);
    buf.push(((frame_len / 256) % 256) as u8);
    buf.push((frame_len % 256) as u8);
    buf.push(0x02);
    buf.push(0xF0);
    buf.push(0x80);
    buf.push(0x01);
    buf.push(0x00);
    buf.push(0x01);
    buf.push(0x00);
    push_all(&mut buf, pres_hdr.as_slice());
    push_all(&mut buf, mms_pdu);
    assert(buf@ =~= spec_data_frame(mms_pdu@));
    buf
}

/// `buf` with `prefix` removed, if it starts with it.
pub open spec fn spec_strip_prefix(buf: Seq<u8>, prefix: Seq<u8>) -> Option<Seq<u8>> {
    if buf.len() >= prefix.len() && buf.take(prefix.len() as int) == prefix {
        Some(buf.skip(prefix.len() as int))
    } else {
        None
    }
}

/// `buf` without its leading `prefix`, if it starts with it.
pub fn strip_prefix<'a>(buf: &'a [u8], prefix: &[u8]) -> (r: Option<&'a [u8]>)
    ensures
        match spec_strip_prefix(buf@, prefix@) {
            Some(s) => r matches Some(t) && t@ == s,
            None => r.is_none(),
        },
{
    if buf.len() < prefix.len() {
        return None;
    }
    let mut i: usize = 0;
    while i < prefix.len()
        invariant
            i <= prefix@.len() <= buf@.len(),
            forall|j: int| 0 <= j < i ==> buf@[j] == prefix@[j],
        decreases prefix@.len() - i,
    {
        if buf[i] != prefix[i] {
            assert(buf@.take(prefix@.len() as int)[i as int] != prefix@[i as int]);
            return None;
        }
        i += 1;
    }
    assert(buf@.take(prefix@.len() as int) =~= prefix@);
    Some(&buf[prefix.len()..buf.len()])
}

/// The MMS PDU inside a data TPKT payload (after the TPKT header), or `None` when the
/// framing does not match.
pub open spec fn spec_unwrap_data(p: Seq<u8>) -> Option<Seq<u8>> {
    match spec_strip_prefix(p, seq![0x02u8, 0xF0u8, 0x80u8]) {
        None => None,
        Some(p1) => match spec_strip_prefix(p1, seq![0x01u8, 0x00u8, 0x01u8, 0x00u8]) {
            None => None,
            Some(p2) => match spec_parse_tlv(p2, 0x61) {
                None => None,
                Some((_, fed)) => match spec_parse_tlv(fed, 0x30) {
                    None => None,
                    Some((_, pdv)) => match spec_strip_prefix(pdv, seq![0x02u8, 0x01u8, 0x03u8]) {
                        None => None,
                        Some(p3) => match spec_parse_tlv(p3, 0xA0) {
                            None => None,
                            Some((_, mms)) => Some(mms),
                        },
                    },
                },
            },
        },
    }
}

/// Extract the raw MMS PDU from a received data TPKT payload.
pub fn unwrap_data_pdu(cotp_payload: &[u8]) -> (r: Option<&[u8]>)
    ensures
        match spec_unwrap_data(cotp_payload@) {
            Some(m) => r matches Some(t) && t@ == m,
            None => r.is_none(),
        },
{
    let cotp_dt: [u8; 3] = [0x02, 0xF0, 0x80];
    let p = match strip_prefix(cotp_payload, cotp_dt.as_slice()) {
        Some(p) => p,
        None => {
            return None;
        },
    };
    assert(cotp_dt@ =~= seq![0x02u8, 0xF0u8, 0x80u8]);
    let session_dt: [u8; 4] = [0x01, 0x00, 0x01, 0x00];
    assert(session_dt@ =~= seq![0x01u8, 0x00u8, 0x01u8, 0x00u8]);
    let p = match strip_prefix(p, session_dt.as_slice()) {
        Some(p) => p,
        None => {
            return None;
        },
    };
    let fed_content = match parse_tlv(p, 0x61) {
        Some((_, c)) => c,
        None => {
            return None;
        },
    };
    let pdv_content = match parse_tlv(fed_content, 0x30) {
        Some((_, c)) => c,
        None => {
            return None;
        },
    };
    let ctx: [u8; 3] = [0x02, 0x01, 0x03];
    assert(ctx@ =~= seq![0x02u8, 0x01u8, 0x03u8]);
    let p = match strip_prefix(pdv_content, ctx.as_slice()) {
        Some(p) => p,
        None => {
            return None;
        },
    };
    match parse_tlv(p, 0xA0) {
        Some((_, mms)) => Some(mms),
        None => None,
    }
}


/// The presentation header followed by the PDU is the nested TLV
/// 61 { 30 { 02 01 03, A0 { pdu } } }.
proof fn lemma_pres_header_nested(pdu: Seq<u8>)
    ensures
        spec_pres_header(pdu.len()) + pdu == spec_tlv(
            0x61,
            spec_tlv(0x30, seq![0x02u8, 0x01u8, 0x03u8] + spec_tlv(0xA0, pdu)),
        ),
{
    let c3 = spec_tlv(0xA0, pdu);
    let c2 = seq![0x02u8, 0x01u8, 0x03u8] + c3;
    let c1 = spec_tlv(0x30, c2);
    assert(c2.len() == 3 + spec_ber_len_size(pdu.len()) + 1 + pdu.len());
    assert(spec_pres_header(pdu.len()) + pdu =~= spec_tlv(0x61, c1));
}

/// The data frame after its TPKT header: COTP DT, Session DT, presentation header, PDU.
proof fn lemma_data_frame_payload(pdu: Seq<u8>)
    ensures
        spec_data_frame(pdu).skip(4) == seq![0x02u8, 0xF0u8, 0x80u8] + (seq![
            0x01u8,
            0x00u8,
            0x01u8,
            0x00u8,
        ] + (spec_pres_header(pdu.len()) + pdu)),
{
    let h = spec_pres_header(pdu.len());
    let frame_len = 4 + 3 + 4 + h.len() + pdu.len();
    let t = seq![TPKT_VER, 0x00u8, ((frame_len / 256) % 256) as u8, (frame_len % 256) as u8];
    let rest = seq![0x02u8, 0xF0u8, 0x80u8] + (seq![0x01u8, 0x00u8, 0x01u8, 0x00u8] + (h + pdu));
    assert(spec_data_frame(pdu) =~= t + rest);
    assert((t + rest).skip(4) =~= rest);
}

proof fn lemma_unwrap_steps(
    f: Seq<u8>,
    p1: Seq<u8>,
    hp: Seq<u8>,
    c1: Seq<u8>,
    c2: Seq<u8>,
    c3: Seq<u8>,
    pdu: Seq<u8>,
)
    requires
        spec_strip_prefix(f, seq![0x02u8, 0xF0u8, 0x80u8]) == Some(p1),
        spec_strip_prefix(p1, seq![0x01u8, 0x00u8, 0x01u8, 0x00u8]) == Some(hp),
        spec_parse_tlv(hp, 0x61) == Some((Seq::<u8>::empty(), c1)),
        spec_parse_tlv(c1, 0x30) == Some((Seq::<u8>::empty(), c2)),
        spec_strip_prefix(c2, seq![0x02u8, 0x01u8, 0x03u8]) == Some(c3),
        spec_parse_tlv(c3, 0xA0) == Some((Seq::<u8>::empty(), pdu)),
    ensures
        spec_unwrap_data(f) == Some(pdu),
{
}

proof fn lemma_tpkt_length(pdu: Seq<u8>)
    requires
        spec_data_frame(pdu).len() <= 0xFFFF,
    ensures
        spec_data_frame(pdu)[2] as nat * 256 + spec_data_frame(pdu)[3] as nat == spec_data_frame(pdu).len(),
{
    let f = spec_data_frame(pdu);
    let l = 4 + 3 + 4 + spec_pres_header(pdu.len()).len() + pdu.len();
    assert(f.len() == l);
    assert(f[2] == ((l / 256) % 256) as u8 && f[3] == (l % 256) as u8);
    assert((l / 256) % 256 == l / 256 && (l / 256) * 256 + l % 256 == l) by (nonlinear_arith)
        requires
            0 <= l <= 0xFFFF,
    ;
}

/// Unwrapping a data frame (after its 4-byte TPKT header) gives back the MMS PDU that was
/// wrapped, for every PDU whose frame length fits the 16-bit TPKT length field; that
/// field then holds the frame's length.
#[verifier::spinoff_prover]
#[verifier::rlimit(40)]
pub proof fn lemma_wrap_unwrap_roundtrip(pdu: Seq<u8>)
    requires
        spec_data_frame(pdu).len() <= 0xFFFF,
    ensures
        spec_data_frame(pdu)[2] as nat * 256 + spec_data_frame(pdu)[3] as nat == spec_data_frame(pdu).len(),
        spec_unwrap_data(spec_data_frame(pdu).skip(4)) == Some(pdu),
{
    lemma_tpkt_length(pdu);
    assert(spec_data_frame(pdu).len() == 11 + spec_pres_header(pdu.len()).len() + pdu.len());
    let h = spec_pres_header(pdu.len());
    let c3 = spec_tlv(0xA0, pdu);
    let c2 = seq![0x02u8, 0x01u8, 0x03u8] + c3;
    let c1 = spec_tlv(0x30, c2);
    let empty = Seq::<u8>::empty();
    let hp = h + pdu;
    lemma_pres_header_nested(pdu);
    let f = spec_data_frame(pdu).skip(4);
    let p1 = seq![0x01u8, 0x00u8, 0x01u8, 0x00u8] + hp;
    lemma_data_frame_payload(pdu);
    assert(spec_strip_prefix(f, seq![0x02u8, 0xF0u8, 0x80u8]) == Some(p1)) by {
        assert(f.take(3) =~= seq![0x02u8, 0xF0u8, 0x80u8]);
        assert(f.skip(3) =~= p1);
    }
    assert(spec_strip_prefix(p1, seq![0x01u8, 0x00u8, 0x01u8, 0x00u8]) == Some(hp)) by {
        assert(p1.take(4) =~= seq![0x01u8, 0x00u8, 0x01u8, 0x00u8]);
        assert(p1.skip(4) =~= hp);
    }
    assert(spec_parse_tlv(hp, 0x61) == Some((empty, c1))) by {
        assert(hp =~= spec_tlv(0x61, c1) + empty);
        lemma_tlv_roundtrip(0x61, c1, empty);
    }
    assert(spec_parse_tlv(c1, 0x30) == Some((empty, c2))) by {
        assert(c1 =~= spec_tlv(0x30, c2) + empty);
        lemma_tlv_roundtrip(0x30, c2, empty);
    }
    assert(spec_strip_prefix(c2, seq![0x02u8, 0x01u8, 0x03u8]) == Some(c3)) by {
        assert(c2.take(3) =~= seq![0x02u8, 0x01u8, 0x03u8]);
        assert(c2.skip(3) =~= c3);
    }
    assert(spec_parse_tlv(c3, 0xA0) == Some((empty, pdu))) by {
        assert(c3 =~= spec_tlv(0xA0, pdu) + empty);
        lemma_tlv_roundtrip(0xA0, pdu, empty);
    }
    lemma_unwrap_steps(f, p1, hp, c1, c2, c3, pdu);
}


// ── Connection setup ───────────────────────────────────────────────────────────

/// COTP Connection Request TPDU code.
pub const COTP_CR: u8 = 0xE0;
/// COTP Connection Confirm TPDU code.
pub const COTP_CC: u8 = 0xD0;
/// Largest TPKT accepted (header included).
pub const MAX_PDU_SIZE: usize = 65_536;

/// The MMS connection-setup payload carried after the COTP DT header: Session
/// CONNECT, Presentation CP, ACSE AARQ and MMS Initiate-Request (max PDU 65000,
/// 5 outstanding calls, nesting level 10).
pub open spec fn spec_mms_connect_payload() -> Seq<u8> {
    seq![
        0x0Du8, 0x95, 0x05, 0x06, 0x13, 0x01, 0x00, 0x16, 0x01, 0x02, 0x14, 0x02,
        0x00, 0x02, 0x33, 0x02, 0x00, 0x01, 0x34, 0x02, 0x00, 0x01, 0xC1, 0x7F,
        0x31, 0x7D, 0xA0, 0x03, 0x80, 0x01, 0x01, 0xA2, 0x76, 0x81, 0x04, 0x00,
        0x00, 0x00, 0x01, 0x82, 0x04, 0x00, 0x00, 0x00, 0x01, 0xA4, 0x23, 0x30,
        0x0F, 0x02, 0x01, 0x01, 0x06, 0x04, 0x52, 0x01, 0x00, 0x01, 0x30, 0x04,
        0x06, 0x02, 0x51, 0x01, 0x30, 0x10, 0x02, 0x01, 0x03, 0x06, 0x05, 0x28,
        0xCA, 0x22, 0x02, 0x01, 0x30, 0x04, 0x06, 0x02, 0x51, 0x01, 0x61, 0x43,
        0x30, 0x41, 0x02, 0x01, 0x03, 0xA0, 0x3C, 0x60, 0x3A, 0xA1, 0x07, 0x06,
        0x05, 0x28, 0xCA, 0x22, 0x02, 0x03, 0xBE, 0x2F, 0x28, 0x2D, 0x02, 0x01,
        0x03, 0xA0, 0x28, 0xA8, 0x26, 0x80, 0x03, 0x00, 0xFD, 0xE8, 0x81, 0x01,
        0x05, 0x82, 0x01, 0x05, 0x83, 0x01, 0x0A, 0xA4, 0x16, 0x80, 0x01, 0x01,
        0x81, 0x03, 0x05, 0xF1, 0x00, 0x82, 0x0C, 0x03, 0xEE, 0x1C, 0x00, 0x00,
        0x04, 0x08, 0x00, 0x00, 0x79, 0xEF, 0x18,
    ]
}

/// The MMS connection-setup payload.
pub fn mms_connect_payload() -> (p: Vec<u8>)
    ensures
        p@ == spec_mms_connect_payload(),
        p@.len() == 151,
{
    let a: [u8; 151] = [
        0x0Du8, 0x95, 0x05, 0x06, 0x13, 0x01, 0x00, 0x16, 0x01, 0x02, 0x14, 0x02,
        0x00, 0x02, 0x33, 0x02, 0x00, 0x01, 0x34, 0x02, 0x00, 0x01, 0xC1, 0x7F,
        0x31, 0x7D, 0xA0, 0x03, 0x80, 0x01, 0x01, 0xA2, 0x76, 0x81, 0x04, 0x00,
        0x00, 0x00, 0x01, 0x82, 0x04, 0x00, 0x00, 0x00, 0x01, 0xA4, 0x23, 0x30,
        0x0F, 0x02, 0x01, 0x01, 0x06, 0x04, 0x52, 0x01, 0x00, 0x01, 0x30, 0x04,
        0x06, 0x02, 0x51, 0x01, 0x30, 0x10, 0x02, 0x01, 0x03, 0x06, 0x05, 0x28,
        0xCA, 0x22, 0x02, 0x01, 0x30, 0x04, 0x06, 0x02, 0x51, 0x01, 0x61, 0x43,
        0x30, 0x41, 0x02, 0x01, 0x03, 0xA0, 0x3C, 0x60, 0x3A, 0xA1, 0x07, 0x06,
        0x05, 0x28, 0xCA, 0x22, 0x02, 0x03, 0xBE, 0x2F, 0x28, 0x2D, 0x02, 0x01,
        0x03, 0xA0, 0x28, 0xA8, 0x26, 0x80, 0x03, 0x00, 0xFD, 0xE8, 0x81, 0x01,
        0x05, 0x82, 0x01, 0x05, 0x83, 0x01, 0x0A, 0xA4, 0x16, 0x80, 0x01, 0x01,
        0x81, 0x03, 0x05, 0xF1, 0x00, 0x82, 0x0C, 0x03, 0xEE, 0x1C, 0x00, 0x00,
        0x04, 0x08, 0x00, 0x00, 0x79, 0xEF, 0x18,
    ];
    assert(a@ =~= spec_mms_connect_payload());
    crate::bytes::copy_bytes(a.as_slice())
}

/// The COTP Connection Request: class 0, TPDU size 1024, calling and called
/// TSAP {0, 1}.
pub open spec fn spec_cotp_connect_request() -> Seq<u8> {
    seq![
        0x11u8, COTP_CR, 0x00, 0x00, 0x00, 0x01, 0x00, 0xC0, 0x01, 0x0A, 0xC1, 0x02, 0x00, 0x01,
        0xC2, 0x02, 0x00, 0x01,
    ]
}

/// The COTP Connection Request payload.
pub fn cotp_connect_request() -> (p: Vec<u8>)
    ensures
        p@ == spec_cotp_connect_request(),
{
    let a: [u8; 18] = [
        0x11, COTP_CR, 0x00, 0x00, 0x00, 0x01, 0x00, 0xC0, 0x01, 0x0A, 0xC1, 0x02, 0x00, 0x01,
        0xC2, 0x02, 0x00, 0x01,
    ];
    assert(a@ =~= spec_cotp_connect_request());
    crate::bytes::copy_bytes(a.as_slice())
}

/// The COTP payload that sets up the MMS association: the DT header `02 F0 80`
/// and the connection-setup payload.
pub fn mms_initiate_payload() -> (p: Vec<u8>)
    ensures
        p@ == seq![0x02u8, 0xF0, 0x80] + spec_mms_connect_payload(),
{
    let mut p: Vec<u8> = Vec::with_capacity(154);
    p.push(0x02);
    p.push(0xF0);
    p.push(0x80);
    let c = mms_connect_payload();
    push_all(&mut p, c.as_slice());
    assert(p@ =~= seq![0x02u8, 0xF0, 0x80] + spec_mms_connect_payload());
    p
}

/// A TPKT: version 3, a reserved byte, the total length (header included,
/// big-endian, modulo 2^16) and the payload.
pub open spec fn spec_tpkt(payload: Seq<u8>) -> Seq<u8> {
    let total = payload.len() + 4;
    seq![TPKT_VER, 0x00u8, ((total / 256) % 256) as u8, (total % 256) as u8] + payload
}

/// Frame a COTP payload in a TPKT.
pub fn tpkt_frame(payload: &[u8]) -> (buf: Vec<u8>)
    requires
        payload@.len() + 4 <= usize::MAX,
    ensures
        buf@ == spec_tpkt(payload@),
{
    let total = 4 + payload.len();
    let mut buf: Vec<u8> = Vec::with_capacity(total);
    buf.push(TPKT_VER);
    buf.push(0x00);
    buf.push(((total / 256) % 256) as u8);
    buf.push((total % 256) as u8);
    push_all(&mut buf, payload);
    assert(buf@ =~= spec_tpkt(payload@));
    buf
}

/// Why a received frame was refused.
#[derive(Debug, Clone, Copy, PartialEq, Eq)]
pub enum FrameError {
    /// A TPKT header whose version byte is not 3.
    InvalidTpktVersion(u8),
    /// A TPKT length below 4.
    TpktLengthOutOfRange(usize),
    /// The answer to a Connection Request is not a Connection Confirm.
    ExpectedConnectConfirm(u8),
    /// The answer to the MMS Initiate-Request is not a COTP data TPDU.
    InvalidInitiateResponse,
}

/// The payload length a TPKT header announces (total length less the header),
/// when the version is 3 and the total is at least 4.
pub open spec fn spec_tpkt_payload_len(h: [u8; 4]) -> Result<usize, FrameError> {
    let total = h[2] as nat * 256 + h[3] as nat;
    if h[0] != TPKT_VER {
        Err(FrameError::InvalidTpktVersion(h[0]))
    } else if total < 4 || total > MAX_PDU_SIZE {
        Err(FrameError::TpktLengthOutOfRange(total as usize))
    } else {
        Ok((total - 4) as usize)
    }
}

/// How many payload bytes follow a TPKT header.
pub fn tpkt_payload_len(header: &[u8; 4]) -> (r: Result<usize, FrameError>)
    ensures
        r == spec_tpkt_payload_len(*header),
{
    if header[0] != TPKT_VER {
        return Err(FrameError::InvalidTpktVersion(header[0]));
    }
    let total: usize = (header[2] as usize) * 256 + header[3] as usize;
    if total < 4 || total > MAX_PDU_SIZE {
        return Err(FrameError::TpktLengthOutOfRange(total));
    }
    Ok(total - 4)
}

/// Accept the answer to a Connection Request: its second byte must be the
/// Connection Confirm code (a missing byte reads as 0).
pub fn check_connect_confirm(cc: &[u8]) -> (r: Result<(), FrameError>)
    ensures
        r is Ok <==> (cc@.len() >= 2 && cc@[1] == COTP_CC),
        r is Err ==> r == Err::<(), FrameError>(
            FrameError::ExpectedConnectConfirm(if cc@.len() >= 2 { cc@[1] } else { 0 }),
        ),
{
    if cc.len() < 2 || cc[1] != COTP_CC {
        let got = if cc.len() >= 2 { cc[1] } else { 0 };
        return Err(FrameError::ExpectedConnectConfirm(got));
    }
    Ok(())
}

/// Accept the answer to the MMS Initiate-Request: it must start with a COTP
/// data header (`02 F0`).
pub fn check_initiate_response(resp: &[u8]) -> (r: Result<(), FrameError>)
    ensures
        r is Ok <==> (resp@.len() >= 3 && resp@[0] == 0x02 && resp@[1] == 0xF0),
        r is Err ==> r == Err::<(), FrameError>(FrameError::InvalidInitiateResponse),
{
    if resp.len() < 3 || resp[0] != 0x02 || resp[1] != 0xF0 {
        return Err(FrameError::InvalidInitiateResponse);
    }
    Ok(())
}

} // verus!
