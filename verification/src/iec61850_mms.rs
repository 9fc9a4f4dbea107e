//! MMS (ISO 9506) PDUs for IEC 61850: Read and Write requests, and the decoding of
//! Read and Write responses.
use vstd::prelude::*;
use vstd::string::StringSliceAdditionalSpecFns;
use vstd::arithmetic::div_mod::{
    lemma_mod_twice,
    lemma_mod_sub_multiples_vanish,
    lemma_mul_mod_noop_left,
    lemma_add_mod_noop,
};
use crate::bytes::push_all;
use crate::text::{spec_utf8_lossy, utf8_lossy};
use crate::iec61850_transport::{
    lemma_ber_len_roundtrip,
    push_ber_len,
    parse_ber_len,
    parse_tlv,
    spec_ber_len,
    spec_ber_len_size,
    spec_parse_ber_len,
    spec_parse_tlv,
};

verus! {

pub const TAG_CONFIRMED_REQ: u8 = 0xA0;
pub const TAG_CONFIRMED_RESP: u8 = 0xA1;
/// [4]: the Read service tag (and the Reject PDU tag).
pub const TAG_READ: u8 = 0xA4;
pub const TAG_INTEGER: u8 = 0x02;
pub const TAG_VISIBLE_STR: u8 = 0x1A;
pub const TAG_SEQUENCE: u8 = 0x30;
pub const DATA_BOOLEAN: u8 = 0x83;
pub const DATA_BIT_STRING: u8 = 0x84;
pub const DATA_INTEGER: u8 = 0x85;
pub const DATA_UNSIGNED: u8 = 0x86;
pub const DATA_FLOAT: u8 = 0x87;
pub const DATA_OCTET_STRING: u8 = 0x89;
pub const DATA_VISIBLE_STRING: u8 = 0x8A;
pub const DATA_UTC_TIME: u8 = 0x91;
pub const DATA_MMS_STRING: u8 = 0x90;


/// A value decoded from an MMS AccessResult. Floating-point values are held as their
/// IEEE-754 bit patterns.
#[derive(Debug, Clone)]
pub enum MmsValue {
    /// IEEE 754 single precision bits (5-byte MMS float: 1 exponent + 4 data)
    Float32(u32),
    /// IEEE 754 double precision bits (9-byte MMS float: 1 exponent + 8 data)
    Float64(u64),
    Boolean(bool),
    Integer(i64),
    Unsigned(u64),
    VisibleString(String),
    BitString { bytes: Vec<u8>, unused_bits: u8 },
    UtcTime([u8; 8]),
    OctetString(Vec<u8>),
    /// MMS data-access-error code
    Failure(u8),
}

/// The mathematical content of an `MmsValue`.
pub enum MmsData {
    Float32(u32),
    Float64(u64),
    Boolean(bool),
    Integer(i64),
    Unsigned(u64),
    VisibleString(Seq<char>),
    BitString(Seq<u8>, u8),
    UtcTime(Seq<u8>),
    OctetString(Seq<u8>),
    Failure(u8),
}

impl View for MmsValue {
    type V = MmsData;

    open spec fn view(&self) -> MmsData {
        match self {
            MmsValue::Float32(v) => MmsData::Float32(*v),
            MmsValue::Float64(v) => MmsData::Float64(*v),
            MmsValue::Boolean(v) => MmsData::Boolean(*v),
            MmsValue::Integer(v) => MmsData::Integer(*v),
            MmsValue::Unsigned(v) => MmsData::Unsigned(*v),
            MmsValue::VisibleString(s) => MmsData::VisibleString(s@),
            MmsValue::BitString { bytes, unused_bits } => MmsData::BitString(bytes@, *unused_bits),
            MmsValue::UtcTime(t) => MmsData::UtcTime(t@),
            MmsValue::OctetString(b) => MmsData::OctetString(b@),
            MmsValue::Failure(c) => MmsData::Failure(*c),
        }
    }
}

impl MmsValue {
    /// The value as a boolean, for booleans and integers.
    pub fn to_bool(&self) -> (b: Option<bool>)
        ensures
            b == match self@ {
                MmsData::Boolean(v) => Some(v),
                MmsData::Integer(v) => Some(v != 0),
                MmsData::Unsigned(v) => Some(v != 0),
                _ => None,
            },
    {
        match self {
            MmsValue::Boolean(v) => Some(*v),
            MmsValue::Integer(v) => Some(*v != 0),
            MmsValue::Unsigned(v) => Some(*v != 0),
            _ => None,
        }
    }

    /// The text of a visible string.
    pub fn to_string_val(&self) -> (s: Option<String>)
        ensures
            match self@ {
                MmsData::VisibleString(t) => s matches Some(u) && u@ == t,
                _ => s.is_none(),
            },
    {
        match self {
            MmsValue::VisibleString(s) => Some(s.clone()),
            _ => None,
        }
    }

    /// Whether the value is no data-access error.
    pub fn is_ok(&self) -> (b: bool)
        ensures
            b == !(self@ is Failure),
    {
        match self {
            MmsValue::Failure(_) => false,
            _ => true,
        }
    }
}

/// Errors of MMS decoding.
#[derive(Debug, Clone, Copy, PartialEq, Eq)]
pub enum MmsError {
    ExpectedConfirmedResponse,
    MissingInvokeId,
    ExpectedReadResponse,
    ExpectedAccessResults,
    EmptyAccessResult,
    MalformedAccessResult,
    UnknownAccessResultTag(u8),
    EmptyData,
    BerLengthError,
    ZeroLengthInteger,
    UnexpectedFloatLength(usize),
    UtcTimeLength(usize),
    UnknownDataTag(u8),
    MissingWriteInvokeId,
    /// A Data TLV announces more content bytes than the buffer holds.
    DataOverrun,
    /// A bit string without its unused-bits byte.
    EmptyBitString,
}

/// A VisibleString TLV whose length byte keeps the low 8 bits of the length.
pub open spec fn spec_visible_str(s: Seq<u8>) -> Seq<u8> {
    seq![TAG_VISIBLE_STR, (s.len() % 256) as u8] + s
}

/// The Read-Request PDU for a domain-specific variable.
pub open spec fn spec_read_request(invoke_id: u8, d: Seq<u8>, i: Seq<u8>) -> Seq<u8> {
    let a1_domain = 2 + d.len() + 2 + i.len();
    let a0_outer = 2 + a1_domain;
    let seq_content = 2 + a0_outer;
    let a0_varspec = 2 + seq_content;
    let a1_list = 2 + a0_varspec;
    let a4_read = 2 + a1_list;
    let req_inner = 3 + 2 + a4_read;
    seq![TAG_CONFIRMED_REQ] + spec_ber_len(req_inner) + seq![TAG_INTEGER, 0x01u8, invoke_id]
        + seq![TAG_READ] + spec_ber_len(a4_read) + seq![0xA1u8] + spec_ber_len(a1_list) + seq![0xA0u8]
        + spec_ber_len(a0_varspec) + seq![TAG_SEQUENCE] + spec_ber_len(seq_content) + seq![0xA0u8]
        + spec_ber_len(a0_outer) + seq![0xA1u8] + spec_ber_len(a1_domain) + spec_visible_str(d)
        + spec_visible_str(i)
}

fn push_visible_str(buf: &mut Vec<u8>, s: &[u8])
    ensures
        final(buf)@ == old(buf)@ + spec_visible_str(s@),
{
    buf.push(TAG_VISIBLE_STR);
    buf.push((s.len() % 256) as u8);
    push_all(buf, s);
    assert(final(buf)@ =~= old(buf)@ + spec_visible_str(s@));
}

/// Build an MMS Read-Request PDU for a single domain-specific variable.
#[verifier::rlimit(60)]
pub fn build_read_request(invoke_id: u8, domain: &str, item: &str) -> (buf: Vec<u8>)
    requires
        domain.spec_bytes().len() + item.spec_bytes().len() <= usize::MAX - 64,
    ensures
        buf@ == spec_read_request(invoke_id, domain.spec_bytes(), item.spec_bytes()),
{
    let d = domain.as_bytes();
    let i = item.as_bytes();
    let a1_domain_content = 2 + d.len() + 2 + i.len();
    let a0_outer_content = 2 + a1_domain_content;
    let seq_content = 2 + a0_outer_content;
    let a0_varspec_content = 2 + seq_content;
    let a1_list_content = 2 + a0_varspec_content;
    let a4_read_content = 2 + a1_list_content;
    let req_inner = 3 + 2 + a4_read_content;
    let mut buf: Vec<u8> = Vec::new();
    buf.push(TAG_CONFIRMED_REQ);
    push_ber_len(&mut buf, req_inner);
    buf.push(TAG_INTEGER);
    buf.push(0x01);
    buf.push(invoke_id);
    buf.push(TAG_READ);
    push_ber_len(&mut buf, a4_read_content);
    buf.push(0xA1);
    push_ber_len(&mut buf, a1_list_content);
    buf.push(0xA0);
    push_ber_len(&mut buf, a0_varspec_content);
    buf.push(TAG_SEQUENCE);
    push_ber_len(&mut buf, seq_content);
    buf.push(0xA0);
    push_ber_len(&mut buf, a0_outer_content);
    buf.push(0xA1);
    push_ber_len(&mut buf, a1_domain_content);
    push_visible_str(&mut buf, d);
    push_visible_str(&mut buf, i);
    assert(buf@ =~= spec_read_request(invoke_id, domain.spec_bytes(), item.spec_bytes()));
    buf
}

/// The Write-Request PDU for a domain-specific variable and an encoded Data TLV.
pub open spec fn spec_write_request(invoke_id: u8, d: Seq<u8>, i: Seq<u8>, data: Seq<u8>) -> Seq<u8> {
    let ds_inner = 2 + d.len() + 2 + i.len();
    let name_inner = 2 + ds_inner;
    let outer_name_inner = 2 + name_inner;
    let seq_inner = 2 + outer_name_inner;
    let var_spec_inner = 2 + seq_inner;
    let list_inner = 2 + var_spec_inner;
    let write_inner = 2 + list_inner + 2 + data.len();
    let req_inner = 3 + 2 + write_inner;
    seq![TAG_CONFIRMED_REQ] + spec_ber_len(req_inner) + seq![TAG_INTEGER, 0x01u8, invoke_id]
        + seq![0xA5u8] + spec_ber_len(write_inner) + seq![0xA0u8] + spec_ber_len(list_inner)
        + seq![0xA1u8] + spec_ber_len(var_spec_inner) + seq![0xA0u8] + spec_ber_len(
        (var_spec_inner - 2) as nat,
    ) + seq![TAG_SEQUENCE] + spec_ber_len((seq_inner - 2) as nat) + seq![0xA0u8] + spec_ber_len(
        (outer_name_inner - 2) as nat,
    ) + seq![0xA1u8] + spec_ber_len(ds_inner) + spec_visible_str(d) + spec_visible_str(i)
        + seq![0xA1u8] + spec_ber_len(data.len()) + data
}

/// Generic Write-Request builder; `data_bytes` is the encoded Data TLV to write.
#[verifier::spinoff_prover]
#[verifier::rlimit(60)]
pub fn build_write_request(invoke_id: u8, domain: &str, item: &str, data_bytes: &[u8]) -> (buf: Vec<u8>)
    requires
        domain.spec_bytes().len() + item.spec_bytes().len() + data_bytes@.len() <= usize::MAX
            - 64,
    ensures
        buf@ == spec_write_request(invoke_id, domain.spec_bytes(), item.spec_bytes(), data_bytes@),
{
    let d = domain.as_bytes();
    let i = item.as_bytes();
    let ds_inner = 2 + d.len() + 2 + i.len();
    let name_inner = 2 + ds_inner;
    let outer_name_inner = 2 + name_inner;
    let seq_inner = 2 + outer_name_inner;
    let var_spec_inner = 2 + seq_inner;
    let list_inner = 2 + var_spec_inner;
    let data_list_inner = data_bytes.len();
    let write_inner = 2 + list_inner + 2 + data_list_inner;
    let req_inner = 3 + 2 + write_inner;
    let mut buf: Vec<u8> = Vec::new();
    buf.push(TAG_CONFIRMED_REQ);
    push_ber_len(&mut buf, req_inner);
    buf.push(TAG_INTEGER);
    buf.push(0x01);
    buf.push(invoke_id);
    buf.push(0xA5);
    push_ber_len(&mut buf, write_inner);
    buf.push(0xA0);
    push_ber_len(&mut buf, list_inner);
    buf.push(0xA1);
    push_ber_len(&mut buf, var_spec_inner);
    buf.push(0xA0);
    push_ber_len(&mut buf, var_spec_inner - 2);
    buf.push(TAG_SEQUENCE);
    push_ber_len(&mut buf, seq_inner - 2);
    buf.push(0xA0);
    push_ber_len(&mut buf, outer_name_inner - 2);
    buf.push(0xA1);
    push_ber_len(&mut buf, ds_inner);
    push_visible_str(&mut buf, d);
    push_visible_str(&mut buf, i);
    buf.push(0xA1);
    push_ber_len(&mut buf, data_list_inner);
    push_all(&mut buf, data_bytes);
    assert(buf@ =~= spec_write_request(invoke_id, domain.spec_bytes(), item.spec_bytes(), data_bytes@));
    buf
}

/// Build an MMS Write-Request that sets a boolean.
pub fn build_write_bool_request(invoke_id: u8, domain: &str, item: &str, value: bool) -> (buf: Vec<u8>)
    requires
        domain.spec_bytes().len() + item.spec_bytes().len() <= usize::MAX - 128,
    ensures
        buf@ == spec_write_request(
            invoke_id,
            domain.spec_bytes(),
            item.spec_bytes(),
            seq![DATA_BOOLEAN, 0x01u8, if value { 1u8 } else { 0u8 }],
        ),
{
    let data: [u8; 3] = [DATA_BOOLEAN, 0x01, if value { 1 } else { 0 }];
    assert(data@ =~= seq![DATA_BOOLEAN, 0x01u8, if value { 1u8 } else { 0u8 }]);
    build_write_request(invoke_id, domain, item, data.as_slice())
}

/// Build an MMS Write-Request that sets a float32, given the value's IEEE-754
/// big-endian bytes.
pub fn build_write_f32_request(invoke_id: u8, domain: &str, item: &str, value_be: [u8; 4]) -> (buf: Vec<u8>)
    requires
        domain.spec_bytes().len() + item.spec_bytes().len() <= usize::MAX - 128,
    ensures
        buf@ == spec_write_request(
            invoke_id,
            domain.spec_bytes(),
            item.spec_bytes(),
            seq![DATA_FLOAT, 0x05u8, 0x08u8] + value_be@,
        ),
{
    let data: [u8; 7] = [DATA_FLOAT, 0x05, 0x08, value_be[0], value_be[1], value_be[2], value_be[3]];
    assert(data@ =~= seq![DATA_FLOAT, 0x05u8, 0x08u8] + value_be@);
    build_write_request(invoke_id, domain, item, data.as_slice())
}

/// The invoke id of a Write-Response: the first byte of the INTEGER that opens the
/// content of the confirmedResponse TLV, or 0 when that INTEGER is empty.
pub open spec fn spec_write_response(pdu: Seq<u8>) -> Result<u8, MmsError> {
    match spec_parse_tlv(pdu, TAG_CONFIRMED_RESP) {
        None => Err(MmsError::ExpectedConfirmedResponse),
        Some((_, content)) => match spec_parse_tlv(content, TAG_INTEGER) {
            None => Err(MmsError::MissingWriteInvokeId),
            Some((_, id)) => Ok(if id.len() > 0 { id[0] } else { 0u8 }),
        },
    }
}

/// Parse an MMS Write-Response; `Ok(invoke_id)` on success.
pub fn parse_write_response(pdu: &[u8]) -> (r: Result<u8, MmsError>)
    ensures
        r == spec_write_response(pdu@),
{
    let content = match parse_tlv(pdu, TAG_CONFIRMED_RESP) {
        Some((_, content)) => content,
        None => {
            return Err(MmsError::ExpectedConfirmedResponse);
        },
    };
    match parse_tlv(content, TAG_INTEGER) {
        Some((_, id)) => Ok(if id.len() > 0 { id[0] } else { 0 }),
        None => Err(MmsError::MissingWriteInvokeId),
    }
}


/// 2^64.
pub open spec fn r64() -> int {
    0x1_0000_0000_0000_0000
}

/// Big-endian value of bytes, accumulated from `init` (each byte shifts in 8 bits).
pub open spec fn spec_be_acc(init: int, s: Seq<u8>) -> int
    decreases s.len(),
{
    if s.len() == 0 {
        init
    } else {
        spec_be_acc(init, s.drop_last()) * 256 + s.last()
    }
}

/// The INTEGER that big-endian bytes hold, sign-extended from the top bit of the first
/// byte and kept to its low 64 bits as a two's complement `i64`.
pub open spec fn spec_be_signed(s: Seq<u8>) -> i64 {
    vstd::wrapping::i64_specs::signed_crop(
        spec_be_acc(if s.len() > 0 && s[0] >= 128 { -1 } else { 0 }, s),
    )
}

/// The unsigned value of big-endian bytes, modulo 2^64.
pub open spec fn spec_be_unsigned(s: Seq<u8>) -> u64 {
    (spec_be_acc(0, s) % r64()) as u64
}

proof fn lemma_step_mod(x: int, y: int, b: int)
    requires
        x % r64() == y % r64(),
    ensures
        (x * 256 + b) % r64() == (y * 256 + b) % r64(),
{
    lemma_mul_mod_noop_left(x, 256, r64());
    lemma_mul_mod_noop_left(y, 256, r64());
    lemma_add_mod_noop(x * 256, b, r64());
    lemma_add_mod_noop(y * 256, b, r64());
}

proof fn lemma_crop_mod(x: int)
    ensures
        (vstd::wrapping::i64_specs::signed_crop(x) as int) % r64() == x % r64(),
{
    lemma_mod_twice(x, r64());
    lemma_mod_sub_multiples_vanish(x % r64(), r64());
}

/// Decode a big-endian two's complement INTEGER (sign-extended, low 64 bits kept).
fn decode_be_signed(val: &[u8]) -> (n: i64)
    requires
        val@.len() > 0,
    ensures
        n == spec_be_signed(val@),
{
    let init: i64 = if val[0] >= 128 { -1 } else { 0 };
    let ghost g: int = init as int;
    let mut n: i64 = init;
    let mut i: usize = 0;
    while i < val.len()
        invariant
            i <= val@.len(),
            g == (if val@.len() > 0 && val@[0] >= 128 { -1int } else { 0int }),
            n == vstd::wrapping::i64_specs::signed_crop(spec_be_acc(g, val@.take(i as int))),
        decreases val@.len() - i,
    {
        let ghost acc = spec_be_acc(g, val@.take(i as int));
        assert(val@.take(i + 1).drop_last() =~= val@.take(i as int));
        let m = n.wrapping_mul(256);
        let b = val[i] as i64;
        let n2 = m.wrapping_add(b);
        proof {
            lemma_crop_mod(acc);
            lemma_crop_mod(n * 256);
            lemma_step_mod(n as int, acc, b as int);
            lemma_crop_mod((m as int) + b);
            assert(((m as int) + b) % r64() == (n * 256 + b) % r64()) by {
                lemma_add_mod_noop(m as int, b as int, r64());
                lemma_add_mod_noop(n * 256, b as int, r64());
                lemma_mod_twice(n * 256, r64());
            }
        }
        n = n2;
        i += 1;
    }
    assert(val@.take(val@.len() as int) =~= val@);
    n
}

/// Decode a big-endian unsigned INTEGER modulo 2^64.
fn decode_be_unsigned(val: &[u8]) -> (n: u64)
    ensures
        n == spec_be_unsigned(val@),
{
    let mut n: u64 = 0;
    let mut i: usize = 0;
    while i < val.len()
        invariant
            i <= val@.len(),
            n as int == spec_be_acc(0, val@.take(i as int)) % r64(),
        decreases val@.len() - i,
    {
        let ghost acc = spec_be_acc(0, val@.take(i as int));
        assert(val@.take(i + 1).drop_last() =~= val@.take(i as int));
        let m = n.wrapping_mul(256);
        let b = val[i] as u64;
        let n2 = m.wrapping_add(b);
        proof {
            lemma_mod_twice(acc, r64());
            lemma_step_mod(n as int, acc, b as int);
            lemma_add_mod_noop(m as int, b as int, r64());
            lemma_add_mod_noop(n * 256, b as int, r64());
            lemma_mod_twice(n * 256, r64());
            lemma_mod_twice((m as int) + b, r64());
        }
        n = n2;
        i += 1;
    }
    assert(val@.take(val@.len() as int) =~= val@);
    n
}


/// Big-endian value of 4 bytes.
pub open spec fn spec_be32(s: Seq<u8>) -> u32 {
    (s[0] * 0x100_0000 + s[1] * 0x1_0000 + s[2] * 0x100 + s[3]) as u32
}

/// Big-endian value of 8 bytes.
pub open spec fn spec_be64(s: Seq<u8>) -> u64 {
    (spec_be32(s.take(4)) * 0x1_0000_0000 + spec_be32(s.skip(4))) as u64
}

/// The Data value with `tag` and content bytes `val`.
pub open spec fn spec_data_of(tag: u8, val: Seq<u8>) -> Result<MmsData, MmsError> {
    if tag == DATA_BOOLEAN {
        Ok(MmsData::Boolean(val.len() > 0 && val[0] != 0))
    } else if tag == DATA_INTEGER {
        if val.len() == 0 {
            Err(MmsError::ZeroLengthInteger)
        } else {
            Ok(MmsData::Integer(spec_be_signed(val)))
        }
    } else if tag == DATA_UNSIGNED {
        Ok(MmsData::Unsigned(spec_be_unsigned(val)))
    } else if tag == DATA_FLOAT {
        if val.len() == 5 {
            Ok(MmsData::Float32(spec_be32(val.skip(1))))
        } else if val.len() == 9 {
            Ok(MmsData::Float64(spec_be64(val.skip(1))))
        } else {
            Err(MmsError::UnexpectedFloatLength(val.len() as usize))
        }
    } else if tag == DATA_BIT_STRING {
        if val.len() == 0 {
            Err(MmsError::EmptyBitString)
        } else {
            Ok(MmsData::BitString(val.skip(1), val[0]))
        }
    } else if tag == DATA_OCTET_STRING {
        Ok(MmsData::OctetString(val))
    } else if tag == DATA_VISIBLE_STRING || tag == DATA_MMS_STRING {
        Ok(MmsData::VisibleString(spec_utf8_lossy(val)))
    } else if tag == DATA_UTC_TIME {
        if val.len() == 8 {
            Ok(MmsData::UtcTime(val))
        } else {
            Err(MmsError::UtcTimeLength(val.len() as usize))
        }
    } else {
        Err(MmsError::UnknownDataTag(tag))
    }
}

/// A Data value at the start of `buf`; an error when its declared length runs past
/// the buffer.
pub open spec fn spec_parse_data(buf: Seq<u8>) -> Result<MmsData, MmsError> {
    if buf.len() == 0 {
        Err(MmsError::EmptyData)
    } else {
        match spec_parse_ber_len(buf.skip(1)) {
            None => Err(MmsError::BerLengthError),
            Some((len, hdr)) => if 1 + hdr + len > buf.len() {
                Err(MmsError::DataOverrun)
            } else {
                spec_data_of(buf[0], buf.subrange((1 + hdr) as int, (1 + hdr + len) as int))
            },
        }
    }
}

/// The number that big-endian bytes write in base 256: the sum of `c[k] *
/// 256^(n-1-k)` over the `n` bytes.
pub open spec fn spec_base256(c: Seq<u8>) -> nat
    decreases c.len(),
{
    if c.len() == 0 {
        0
    } else {
        c[0] as nat * vstd::arithmetic::power::pow(256, (c.len() - 1) as nat) as nat + spec_base256(
            c.drop_first(),
        )
    }
}

proof fn lemma_base256_last(c: Seq<u8>)
    requires
        c.len() > 0,
    ensures
        spec_base256(c) == spec_base256(c.drop_last()) * 256 + c.last(),
    decreases c.len(),
{
    reveal(vstd::arithmetic::power::pow);
    if c.len() == 1 {
        assert(vstd::arithmetic::power::pow(256, 0) == 1);
        assert((c.len() - 1) as nat == 0nat);
        assert(c.drop_last().len() == 0);
        assert(c.drop_first().len() == 0);
        assert(spec_base256(c.drop_first()) == 0);
        assert(spec_base256(c.drop_last()) == 0);
        assert(c.last() == c[0]);
        assert(spec_base256(c) == c[0] as nat * vstd::arithmetic::power::pow(256, 0) as nat + spec_base256(c.drop_first()));
        assert(c[0] as nat * 1nat == c[0] as nat);
    } else {
        let t = c.drop_first();
        let d = c.drop_last();
        lemma_base256_last(t);
        assert(t.drop_last() =~= d.drop_first());
        assert(d[0] == c[0]);
        assert(t.last() == c.last());
        let e = (c.len() - 1) as nat;
        let p = vstd::arithmetic::power::pow(256, (e - 1) as nat);
        vstd::arithmetic::power::lemma_pow_positive(256, e);
        vstd::arithmetic::power::lemma_pow_positive(256, (e - 1) as nat);
        assert(vstd::arithmetic::power::pow(256, e) == 256 * p);
        assert((d.len() - 1) as nat == (e - 1) as nat);
        let c0 = c[0] as int;
        let bt = spec_base256(t.drop_last()) as int;
        assert(spec_base256(t) == bt * 256 + c.last());
        assert(spec_base256(d) == c0 * p + bt);
        assert(spec_base256(c) == c0 * (256 * p) + spec_base256(t));
        assert(c0 * (256 * p) + bt * 256 + c.last() == (c0 * p + bt) * 256 + c.last()) by (nonlinear_arith);
    }
}

proof fn lemma_be_acc_base256(c: Seq<u8>)
    ensures
        spec_be_acc(0, c) == spec_base256(c) as int,
    decreases c.len(),
{
    if c.len() > 0 {
        lemma_be_acc_base256(c.drop_last());
        lemma_base256_last(c);
    }
}

/// An MMS Unsigned value (tag 0x86) of content bytes `c` decodes to the number
/// those bytes write big-endian, modulo 2^64.
pub proof fn lemma_unsigned_data(c: Seq<u8>)
    requires
        c.len() < 0x1_0000,
    ensures
        spec_parse_data(seq![DATA_UNSIGNED] + spec_ber_len(c.len()) + c) == Ok::<MmsData, MmsError>(
            MmsData::Unsigned((spec_base256(c) % 0x1_0000_0000_0000_0000) as u64),
        ),
{
    let buf = seq![DATA_UNSIGNED] + spec_ber_len(c.len()) + c;
    assert(buf.skip(1) =~= spec_ber_len(c.len()) + c);
    lemma_ber_len_roundtrip(c.len(), c);
    let hdr = spec_ber_len_size(c.len());
    assert(spec_ber_len(c.len()).len() == hdr);
    assert(buf.subrange((1 + hdr) as int, (1 + hdr + c.len()) as int) =~= c);
    lemma_be_acc_base256(c);
}

proof fn lemma_base256_bound(c: Seq<u8>)
    ensures
        spec_base256(c) < vstd::arithmetic::power::pow(256, c.len()),
        c.len() > 0 ==> spec_base256(c) >= c[0] as int * vstd::arithmetic::power::pow(256, (c.len() - 1) as nat),
        c.len() > 0 ==> spec_base256(c) < (c[0] as int + 1) * vstd::arithmetic::power::pow(256, (c.len() - 1) as nat),
    decreases c.len(),
{
    reveal(vstd::arithmetic::power::pow);
    if c.len() > 0 {
        let t = c.drop_first();
        lemma_base256_bound(t);
        let p = vstd::arithmetic::power::pow(256, (c.len() - 1) as nat);
        vstd::arithmetic::power::lemma_pow_positive(256, (c.len() - 1) as nat);
        assert(t.len() == (c.len() - 1) as nat);
        assert(vstd::arithmetic::power::pow(256, c.len()) == 256 * p);
        let c0 = c[0] as int;
        let b = spec_base256(t) as int;
        assert(spec_base256(c) == c0 * p + b);
        assert(c0 * p + b < (c0 + 1) * p) by (nonlinear_arith)
            requires
                b < p,
        ;
        assert((c0 + 1) * p <= 256 * p) by (nonlinear_arith)
            requires
                0 <= c0 < 256,
                p > 0,
        ;
    }
}

proof fn lemma_be_acc_init(init: int, c: Seq<u8>)
    ensures
        spec_be_acc(init, c) == init * vstd::arithmetic::power::pow(256, c.len()) + spec_base256(c),
    decreases c.len(),
{
    reveal(vstd::arithmetic::power::pow);
    if c.len() > 0 {
        lemma_be_acc_init(init, c.drop_last());
        lemma_base256_last(c);
        let p = vstd::arithmetic::power::pow(256, (c.len() - 1) as nat);
        assert(c.drop_last().len() == (c.len() - 1) as nat);
        assert(vstd::arithmetic::power::pow(256, c.len()) == 256 * p);
        let b = spec_base256(c.drop_last()) as int;
        assert((init * p + b) * 256 + c.last() == init * (256 * p) + (b * 256 + c.last())) by (nonlinear_arith);
    }
    else {
        assert(vstd::arithmetic::power::pow(256, 0) == 1);
    }
}

/// An MMS Integer (tag 0x85) of one to eight content bytes `c` decodes to the
/// two's-complement number they write big-endian: the base-256 number of the
/// bytes, less 256^n when the top bit of the first byte is set.
pub proof fn lemma_integer_data(c: Seq<u8>)
    requires
        1 <= c.len() <= 8,
    ensures
        spec_parse_data(seq![DATA_INTEGER] + spec_ber_len(c.len()) + c) == Ok::<MmsData, MmsError>(
            MmsData::Integer(
                (spec_base256(c) - (if c[0] >= 128 {
                    vstd::arithmetic::power::pow(256, c.len())
                } else {
                    0
                })) as i64,
            ),
        ),
{
    let buf = seq![DATA_INTEGER] + spec_ber_len(c.len()) + c;
    assert(buf.skip(1) =~= spec_ber_len(c.len()) + c);
    lemma_ber_len_roundtrip(c.len(), c);
    let hdr = spec_ber_len_size(c.len());
    assert(spec_ber_len(c.len()).len() == hdr);
    assert(buf.subrange((1 + hdr) as int, (1 + hdr + c.len()) as int) =~= c);
    let n = c.len();
    let init: int = if c[0] >= 128 { -1 } else { 0 };
    lemma_be_acc_init(init, c);
    lemma_base256_bound(c);
    reveal_with_fuel(vstd::arithmetic::power::pow, 9);
    let p = vstd::arithmetic::power::pow(256, n);
    let h = vstd::arithmetic::power::pow(256, (n - 1) as nat);
    assert(p == 256 * h);
    assert(p <= 0x1_0000_0000_0000_0000);
    let v = spec_base256(c) - (if c[0] >= 128 { p } else { 0 });
    assert(spec_be_acc(init, c) == init * p + spec_base256(c));
    if c[0] >= 128 {
        assert(init == -1);
        assert(init * p == -p) by (nonlinear_arith)
            requires
                init == -1,
        ;
    } else {
        assert(init * p == 0) by (nonlinear_arith)
            requires
                init == 0,
        ;
    }
    assert(spec_be_acc(init, c) == v);
    let c0 = c[0] as int;
    if c0 >= 128 {
        assert(c0 * h >= 128 * h) by (nonlinear_arith)
            requires
                c0 >= 128,
                h > 0,
        ;
        assert(-0x8000_0000_0000_0000 <= v < 0);
        assert(v % 0x1_0000_0000_0000_0000 == v + 0x1_0000_0000_0000_0000);
    } else {
        assert((c0 + 1) * h <= 128 * h) by (nonlinear_arith)
            requires
                c0 < 128,
                h > 0,
        ;
        assert(0 <= v < 0x8000_0000_0000_0000);
        assert(v % 0x1_0000_0000_0000_0000 == v);
    }
}

/// An MMS floating-point value (tag 0x87) is an exponent-width byte and the
/// IEEE-754 bits high byte first: five content bytes give a single whose bits are
/// `c[1..5]` big-endian, nine give a double whose bits are `c[1..9]` big-endian;
/// any other length is refused.
pub proof fn lemma_float_data(c: Seq<u8>)
    requires
        c.len() < 0x1_0000,
    ensures
        ({
            let r = spec_parse_data(seq![DATA_FLOAT] + spec_ber_len(c.len()) + c);
            &&& c.len() == 5 ==> r == Ok::<MmsData, MmsError>(
                MmsData::Float32(
                    (c[1] as int * 0x100_0000 + c[2] as int * 0x1_0000 + c[3] as int * 0x100 + c[4] as int) as u32,
                ),
            )
            &&& c.len() == 9 ==> r == Ok::<MmsData, MmsError>(
                MmsData::Float64(
                    (c[1] as int * 0x100_0000_0000_0000 + c[2] as int * 0x1_0000_0000_0000 + c[3] as int
                        * 0x100_0000_0000 + c[4] as int * 0x1_0000_0000 + c[5] as int * 0x100_0000 + c[6] as int
                        * 0x1_0000 + c[7] as int * 0x100 + c[8] as int) as u64,
                ),
            )
            &&& c.len() != 5 && c.len() != 9 ==> r == Err::<MmsData, MmsError>(
                MmsError::UnexpectedFloatLength(c.len() as usize),
            )
        }),
{
    let buf = seq![DATA_FLOAT] + spec_ber_len(c.len()) + c;
    assert(buf.skip(1) =~= spec_ber_len(c.len()) + c);
    lemma_ber_len_roundtrip(c.len(), c);
    let hdr = spec_ber_len_size(c.len());
    assert(spec_ber_len(c.len()).len() == hdr);
    assert(buf.subrange((1 + hdr) as int, (1 + hdr + c.len()) as int) =~= c);
    if c.len() == 9 {
        let t = c.skip(1);
        assert(t.take(4)[0] == c[1] && t.take(4)[1] == c[2] && t.take(4)[2] == c[3] && t.take(4)[3] == c[4]);
        assert(t.skip(4)[0] == c[5] && t.skip(4)[1] == c[6] && t.skip(4)[2] == c[7] && t.skip(4)[3] == c[8]);
    }
}

fn be32(s: &[u8]) -> (v: u32)
    requires
        s@.len() == 4,
    ensures
        v == spec_be32(s@),
{
    (s[0] as u32) * 0x100_0000 + (s[1] as u32) * 0x1_0000 + (s[2] as u32) * 0x100 + (s[3] as u32)
}

/// Parse a single MMS `Data` value (a Data TLV).
pub fn parse_data(buf: &[u8]) -> (r: Result<MmsValue, MmsError>)
    ensures
        match spec_parse_data(buf@) {
            Ok(v) => r matches Ok(x) && x@ == v,
            Err(e) => r matches Err(e2) && e2 == e,
        },
{
    if buf.len() == 0 {
        return Err(MmsError::EmptyData);
    }
    let tag = buf[0];
    let tail = &buf[1..buf.len()];
    assert(tail@ =~= buf@.skip(1));
    let (len, hdr) = match parse_ber_len(tail) {
        Some(p) => p,
        None => {
            return Err(MmsError::BerLengthError);
        },
    };
    if len > buf.len() - 1 - hdr {
        return Err(MmsError::DataOverrun);
    }
    let val = &buf[1 + hdr..1 + hdr + len];
    if tag == DATA_BOOLEAN {
        Ok(MmsValue::Boolean(val.len() > 0 && val[0] != 0))
    } else if tag == DATA_INTEGER {
        if val.len() == 0 {
            return Err(MmsError::ZeroLengthInteger);
        }
        Ok(MmsValue::Integer(decode_be_signed(val)))
    } else if tag == DATA_UNSIGNED {
        Ok(MmsValue::Unsigned(decode_be_unsigned(val)))
    } else if tag == DATA_FLOAT {
        if val.len() == 5 {
            let b = &val[1..5];
            assert(b@ =~= val@.skip(1));
            Ok(MmsValue::Float32(be32(b)))
        } else if val.len() == 9 {
            let hi = &val[1..5];
            let lo = &val[5..9];
            assert(hi@ =~= val@.skip(1).take(4));
            assert(lo@ =~= val@.skip(1).skip(4));
            let v = (be32(hi) as u64) * 0x1_0000_0000 + (be32(lo) as u64);
            Ok(MmsValue::Float64(v))
        } else {
            Err(MmsError::UnexpectedFloatLength(val.len()))
        }
    } else if tag == DATA_BIT_STRING {
        if val.len() == 0 {
            return Err(MmsError::EmptyBitString);
        }
        let unused: u8 = val[0];
        let rest = &val[1..val.len()];
        let mut bytes: Vec<u8> = Vec::new();
        push_all(&mut bytes, rest);
        assert(bytes@ =~= val@.skip(1));
        Ok(MmsValue::BitString { bytes, unused_bits: unused })
    } else if tag == DATA_OCTET_STRING {
        let mut bytes: Vec<u8> = Vec::new();
        push_all(&mut bytes, val);
        assert(bytes@ =~= val@);
        Ok(MmsValue::OctetString(bytes))
    } else if tag == DATA_VISIBLE_STRING || tag == DATA_MMS_STRING {
        Ok(MmsValue::VisibleString(utf8_lossy(val)))
    } else if tag == DATA_UTC_TIME {
        if val.len() == 8 {
            let arr: [u8; 8] = [val[0], val[1], val[2], val[3], val[4], val[5], val[6], val[7]];
            assert(arr@ =~= val@);
            Ok(MmsValue::UtcTime(arr))
        } else {
            Err(MmsError::UtcTimeLength(val.len()))
        }
    } else {
        Err(MmsError::UnknownDataTag(tag))
    }
}

/// Whether `tag` is a Data tag that a server may send without the success wrapper.
pub open spec fn is_data_tag(tag: u8) -> bool {
    tag == DATA_BOOLEAN || tag == DATA_BIT_STRING || tag == DATA_INTEGER || tag == DATA_UNSIGNED
        || tag == DATA_FLOAT || tag == DATA_OCTET_STRING || tag == DATA_VISIBLE_STRING || tag
        == DATA_UTC_TIME || tag == DATA_MMS_STRING
}

/// The AccessResult at the start of `buf`: a failure code (tag 80), a success wrapper
/// (tag A1) around Data, or Data itself.
pub open spec fn spec_parse_access_result(buf: Seq<u8>) -> Result<MmsData, MmsError> {
    if buf.len() == 0 {
        Err(MmsError::EmptyAccessResult)
    } else if buf[0] == 0x80 {
        Ok(MmsData::Failure(if buf.len() > 2 { buf[2] } else { 0u8 }))
    } else if buf[0] == 0xA1 {
        match spec_parse_tlv(buf, 0xA1) {
            None => Err(MmsError::MalformedAccessResult),
            Some((_, d)) => spec_parse_data(d),
        }
    } else if is_data_tag(buf[0]) {
        spec_parse_data(buf)
    } else {
        Err(MmsError::UnknownAccessResultTag(buf[0]))
    }
}

/// Parse a single AccessResult from the start of `buf`.
pub fn parse_access_result(buf: &[u8]) -> (r: Result<MmsValue, MmsError>)
    ensures
        match spec_parse_access_result(buf@) {
            Ok(v) => r matches Ok(x) && x@ == v,
            Err(e) => r matches Err(e2) && e2 == e,
        },
{
    if buf.len() == 0 {
        return Err(MmsError::EmptyAccessResult);
    }
    let tag = buf[0];
    if tag == 0x80 {
        let code: u8 = if buf.len() > 2 { buf[2] } else { 0 };
        Ok(MmsValue::Failure(code))
    } else if tag == 0xA1 {
        match parse_tlv(buf, 0xA1) {
            Some((_, data_buf)) => parse_data(data_buf),
            None => Err(MmsError::MalformedAccessResult),
        }
    } else if tag == DATA_BOOLEAN || tag == DATA_BIT_STRING || tag == DATA_INTEGER || tag
        == DATA_UNSIGNED || tag == DATA_FLOAT || tag == DATA_OCTET_STRING || tag
        == DATA_VISIBLE_STRING || tag == DATA_UTC_TIME || tag == DATA_MMS_STRING {
        parse_data(buf)
    } else {
        Err(MmsError::UnknownAccessResultTag(tag))
    }
}

/// The invoke id and the listOfAccessResults content of a Read-Response.
pub open spec fn spec_read_response_results(pdu: Seq<u8>) -> Result<(u8, Seq<u8>), MmsError> {
    match spec_parse_tlv(pdu, TAG_CONFIRMED_RESP) {
        None => Err(MmsError::ExpectedConfirmedResponse),
        Some((_, content)) => match spec_parse_tlv(content, TAG_INTEGER) {
            None => Err(MmsError::MissingInvokeId),
            Some((rest, id)) => match spec_parse_tlv(rest, TAG_READ) {
                None => Err(MmsError::ExpectedReadResponse),
                Some((_, read_resp)) => match spec_parse_tlv(read_resp, 0xA1) {
                    None => Err(MmsError::ExpectedAccessResults),
                    Some((_, results)) => Ok((if id.len() > 0 { id[0] } else { 0u8 }, results)),
                },
            },
        },
    }
}

/// A Read-Response's invoke id and the value of its first AccessResult.
pub open spec fn spec_read_response(pdu: Seq<u8>) -> Result<(u8, MmsData), MmsError> {
    match spec_read_response_results(pdu) {
        Err(e) => Err(e),
        Ok((id, results)) => match spec_parse_access_result(results) {
            Err(e) => Err(e),
            Ok(v) => Ok((id, v)),
        },
    }
}

/// Decode an MMS Read-Response: its invoke id and the first AccessResult value.
pub fn parse_read_response(pdu: &[u8]) -> (r: Result<(u8, MmsValue), MmsError>)
    ensures
        match spec_read_response(pdu@) {
            Ok((id, v)) => r matches Ok((id2, x)) && id2 == id && x@ == v,
            Err(e) => r matches Err(e2) && e2 == e,
        },
{
    let pdu_content = match parse_tlv(pdu, TAG_CONFIRMED_RESP) {
        Some((_, c)) => c,
        None => {
            return Err(MmsError::ExpectedConfirmedResponse);
        },
    };
    let (rest, id_bytes) = match parse_tlv(pdu_content, TAG_INTEGER) {
        Some(p) => p,
        None => {
            return Err(MmsError::MissingInvokeId);
        },
    };
    let invoke_id: u8 = if id_bytes.len() > 0 { id_bytes[0] } else { 0 };
    let read_resp = match parse_tlv(rest, TAG_READ) {
        Some((_, c)) => c,
        None => {
            return Err(MmsError::ExpectedReadResponse);
        },
    };
    let access_results = match parse_tlv(read_resp, 0xA1) {
        Some((_, c)) => c,
        None => {
            return Err(MmsError::ExpectedAccessResults);
        },
    };
    match parse_access_result(access_results) {
        Ok(v) => Ok((invoke_id, v)),
        Err(e) => Err(e),
    }
}

} // verus!
