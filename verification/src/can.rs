//! CAN bus: channel configuration, the per-ID frame cache, LYNK battery
//! CAN-IDs, and the extraction and decoding of point fields from frame data
//! (little-endian).
use vstd::prelude::*;
use std::collections::HashMap;
use vstd::std_specs::iter::IteratorSpec;
use crate::point::PointType;
use crate::bytes::{spec_le, spec_signed, lemma_pow2_bytes, read_le16, read_le32};
use crate::text::{spec_utf8_lossy, utf8_lossy, string_from_chars, chars_of};

verus! {

broadcast use vstd::std_specs::hash::group_hash_axioms;

// ── Configuration ──────────────────────────────────────────────────────────────

/// CAN client configuration.
#[derive(Debug, Clone)]
pub struct CanConfig {
    pub can_interface: String,
    pub bitrate: u32,
    pub connect_timeout_ms: u64,
    pub read_timeout_ms: u64,
    pub retry_interval_ms: u64,
    pub rx_poll_interval_ms: u64,
    pub data_read_interval_ms: u64,
}

/// The default interface name, "can0".
pub open spec fn spec_default_can_device() -> Seq<char> {
    seq!['c', 'a', 'n', '0']
}

/// The default CAN interface name.
pub fn default_can_device() -> (s: String)
    ensures
        s@ == spec_default_can_device(),
{
    let cs: [char; 4] = ['c', 'a', 'n', '0'];
    assert(cs@ =~= spec_default_can_device());
    string_from_chars(cs.as_slice())
}

/// The default bitrate: 250 kbit/s.
pub fn default_bitrate() -> (b: u32)
    ensures
        b == 250000,
{
    250000
}

/// The default connect timeout (ms).
pub fn default_connect_timeout() -> (t: u64)
    ensures
        t == 3000,
{
    3000
}

/// The default frame read timeout (ms).
pub fn default_read_timeout() -> (t: u64)
    ensures
        t == 3000,
{
    3000
}

/// The default reconnect interval (ms).
pub fn default_retry_interval() -> (t: u64)
    ensures
        t == 2000,
{
    2000
}

/// The default receive polling interval (ms).
pub fn default_rx_poll_interval() -> (t: u64)
    ensures
        t == 50,
{
    50
}

/// The default data reading interval (ms).
pub fn default_data_read_interval() -> (t: u64)
    ensures
        t == 1000,
{
    1000
}

impl Default for CanConfig {
    fn default() -> (c: Self)
        ensures
            c.can_interface@ == spec_default_can_device(),
            c.bitrate == 250000,
            c.connect_timeout_ms == 3000,
            c.read_timeout_ms == 3000,
            c.retry_interval_ms == 2000,
            c.rx_poll_interval_ms == 50,
            c.data_read_interval_ms == 1000,
    {
        CanConfig {
            can_interface: default_can_device(),
            bitrate: default_bitrate(),
            connect_timeout_ms: default_connect_timeout(),
            read_timeout_ms: default_read_timeout(),
            retry_interval_ms: default_retry_interval(),
            rx_poll_interval_ms: default_rx_poll_interval(),
            data_read_interval_ms: default_data_read_interval(),
        }
    }
}

/// How the bytes of a CAN field are interpreted.
#[derive(Debug, Clone, Copy, PartialEq, Eq)]
pub enum CanDataType {
    UInt8,
    UInt16,
    Int16,
    UInt32,
    Int32,
    Float32,
    Ascii,
}

impl Default for CanDataType {
    fn default() -> (t: Self)
        ensures
            t == CanDataType::UInt16,
    {
        CanDataType::UInt16
    }
}

/// Where a point lives in CAN traffic and how its bytes are read. (The linear
/// scale and offset that turn an integer reading into an engineering value are
/// applied by the caller.)
#[derive(Debug, Clone, Copy, PartialEq, Eq)]
pub struct CanPoint {
    pub point_id: u32,
    pub point_type: PointType,
    pub can_id: u32,
    /// Byte offset in the data field (0-7).
    pub byte_offset: u8,
    /// Starting bit within the byte (LSB = 0).
    pub bit_position: u8,
    /// Field length in bits: 2, 8, 16, 32 or 64.
    pub bit_length: u8,
    pub data_type: CanDataType,
}

/// CAN channel parameters, as configured.
#[derive(Debug, Clone)]
pub struct CanChannelParamsConfig {
    pub device: String,
    pub bitrate: u32,
    pub connect_timeout_ms: u64,
    pub read_timeout_ms: u64,
    pub retry_interval_ms: u64,
    pub rx_poll_interval_ms: u64,
    pub data_read_interval_ms: u64,
}

impl CanChannelParamsConfig {
    /// The client configuration these parameters describe.
    pub fn to_config(&self) -> (c: CanConfig)
        ensures
            c.can_interface@ == self.device@,
            c.bitrate == self.bitrate,
            c.connect_timeout_ms == self.connect_timeout_ms,
            c.read_timeout_ms == self.read_timeout_ms,
            c.retry_interval_ms == self.retry_interval_ms,
            c.rx_poll_interval_ms == self.rx_poll_interval_ms,
            c.data_read_interval_ms == self.data_read_interval_ms,
    {
        CanConfig {
            can_interface: self.device.clone(),
            bitrate: self.bitrate,
            connect_timeout_ms: self.connect_timeout_ms,
            read_timeout_ms: self.read_timeout_ms,
            retry_interval_ms: self.retry_interval_ms,
            rx_poll_interval_ms: self.rx_poll_interval_ms,
            data_read_interval_ms: self.data_read_interval_ms,
        }
    }
}

// ── Frame data ─────────────────────────────────────────────────────────────────

/// `bytes` cut to at most eight bytes.
pub open spec fn spec_first8(bytes: Seq<u8>) -> Seq<u8> {
    if bytes.len() <= 8 {
        bytes
    } else {
        bytes.take(8)
    }
}

fn byte_or_zero(bytes: &[u8], i: usize) -> (b: u8)
    ensures
        b == (if i < bytes@.len() { bytes@[i as int] } else { 0u8 }),
{
    if i < bytes.len() {
        bytes[i]
    } else {
        0
    }
}

/// Up to eight data bytes in a fixed buffer.
#[derive(Debug, Clone, Copy)]
pub struct CanFrameData {
    data: [u8; 8],
    len: u8,
}

impl CanFrameData {
    #[verifier::type_invariant]
    spec fn inv(self) -> bool {
        self.len <= 8
    }

    /// The bytes held.
    pub closed spec fn bytes(self) -> Seq<u8> {
        self.data@.take(self.len as int)
    }

    /// A buffer holding the first (at most eight) bytes of `bytes`.
    pub fn from_slice(bytes: &[u8]) -> (f: Self)
        ensures
            f.bytes() == spec_first8(bytes@),
    {
        let len: u8 = if bytes.len() < 8 {
            bytes.len() as u8
        } else {
            8
        };
        let data: [u8; 8] = [
            byte_or_zero(bytes, 0),
            byte_or_zero(bytes, 1),
            byte_or_zero(bytes, 2),
            byte_or_zero(bytes, 3),
            byte_or_zero(bytes, 4),
            byte_or_zero(bytes, 5),
            byte_or_zero(bytes, 6),
            byte_or_zero(bytes, 7),
        ];
        let f = CanFrameData { data, len };
        assert(f.bytes() =~= spec_first8(bytes@));
        f
    }

    /// The bytes held, as a slice.
    pub fn as_slice(&self) -> (s: &[u8])
        ensures
            s@ == self.bytes(),
    {
        proof {
            use_type_invariant(self);
        }
        let n = self.len as usize;
        let s = self.data.as_slice();
        &s[0..n]
    }

    /// The number of bytes held.
    pub fn len(&self) -> (n: usize)
        ensures
            n == self.bytes().len(),
    {
        proof {
            use_type_invariant(self);
        }
        self.len as usize
    }
}

impl Default for CanFrameData {
    fn default() -> (f: Self)
        ensures
            f.bytes() == Seq::<u8>::empty(),
    {
        let f = CanFrameData { data: [0u8; 8], len: 0 };
        assert(f.bytes() =~= Seq::<u8>::empty());
        f
    }
}

/// The latest frame received for each CAN-ID.
#[derive(Debug, Clone)]
pub struct CanFrameCache {
    frames: HashMap<u32, CanFrameData>,
}

impl CanFrameCache {
    /// The cached data by CAN-ID.
    pub closed spec fn contents(self) -> Map<u32, Seq<u8>> {
        Map::new(|id: u32| self.frames@.contains_key(id), |id: u32| self.frames@[id].bytes())
    }

    /// An empty cache.
    pub fn new() -> (c: Self)
        ensures
            c.contents() == Map::<u32, Seq<u8>>::empty(),
    {
        let c = CanFrameCache { frames: HashMap::new() };
        assert(c.contents() =~= Map::<u32, Seq<u8>>::empty());
        c
    }

    /// Keep `data` (its first eight bytes) as the latest frame of `can_id`.
    pub fn update(&mut self, can_id: u32, data: &[u8])
        ensures
            final(self).contents() == old(self).contents().insert(can_id, spec_first8(data@)),
    {
        let f = CanFrameData::from_slice(data);
        self.frames.insert(can_id, f);
        assert(self.contents() =~= old(self).contents().insert(can_id, spec_first8(data@)));
    }

    /// The latest frame data of `can_id`, if any was received.
    pub fn get(&self, can_id: u32) -> (r: Option<&[u8]>)
        ensures
            match r {
                Some(s) => self.contents().contains_key(can_id) && s@ == self.contents()[can_id],
                None => !self.contents().contains_key(can_id),
            },
    {
        match self.frames.get(&can_id) {
            Some(f) => Some(f.as_slice()),
            None => None,
        }
    }

    /// The number of CAN-IDs with a cached frame.
    pub fn len(&self) -> (n: usize)
        ensures
            n == self.contents().dom().len(),
    {
        assert(self.contents().dom() =~= self.frames@.dom());
        self.frames.len()
    }

    /// The cached frames, each CAN-ID once, in no particular order.
    pub fn iter(&self) -> (v: Vec<(u32, CanFrameData)>)
        ensures
            v@.len() == self.contents().dom().len(),
            forall|i: int|
                0 <= i < v@.len() ==> self.contents().contains_key((#[trigger] v@[i]).0)
                    && self.contents()[v@[i].0] == v@[i].1.bytes(),
            forall|id: u32|
                self.contents().contains_key(id) ==> exists|i: int|
                    0 <= i < v@.len() && (#[trigger] v@[i]).0 == id,
    {
        let mut v: Vec<(u32, CanFrameData)> = Vec::new();
        for e in it: self.frames.iter()
            invariant
                v@ == it.seq().take(it.index()).unref(),
        {
            let (k, f) = e;
            v.push((*k, *f));
            proof {
                assert(it.seq().take(it.index() + 1).unref() =~= it.seq().take(it.index()).unref().push(
                    (*k, *f),
                ));
            }
        }
        proof {
            let all = self.frames.iter().remaining();
            assert(v@ =~= all.unref());
            assert(self.contents().dom() =~= self.frames@.dom());
            assert forall|id: u32| self.contents().contains_key(id) implies exists|i: int|
                0 <= i < v@.len() && (#[trigger] v@[i]).0 == id by {
                assert(all.contains((&id, &self.frames@[id])));
                let i = choose|i: int| 0 <= i < all.len() && all[i] == (&id, &self.frames@[id]);
                assert(v@[i].0 == id);
            }
        }
        v
    }
}

impl Default for CanFrameCache {
    fn default() -> (c: Self)
        ensures
            c.contents() == Map::<u32, Seq<u8>>::empty(),
    {
        CanFrameCache::new()
    }
}

// ── LYNK CAN-IDs ───────────────────────────────────────────────────────────────

/// CAN-IDs of the LYNK serial CAN battery protocol.
#[derive(Debug, Clone, Copy, PartialEq, Eq, Hash)]
pub enum LynkCanId {
    BatteryLimits,
    BatteryCapacity,
    BatteryStatus,
    BatteryMeasurements,
    BatteryAlarms,
    ManufacturerName,
    ModelNameUpper,
    ModelNameLower,
    FirmwareVersion,
    ProtocolVersion,
}

/// The CAN-ID of each LYNK message.
pub open spec fn spec_lynk_code(l: LynkCanId) -> u32 {
    match l {
        LynkCanId::BatteryLimits => 0x351,
        LynkCanId::BatteryCapacity => 0x354,
        LynkCanId::BatteryStatus => 0x355,
        LynkCanId::BatteryMeasurements => 0x356,
        LynkCanId::BatteryAlarms => 0x35A,
        LynkCanId::ManufacturerName => 0x35E,
        LynkCanId::ModelNameUpper => 0x370,
        LynkCanId::ModelNameLower => 0x371,
        LynkCanId::FirmwareVersion => 0x372,
        LynkCanId::ProtocolVersion => 0x373,
    }
}

impl LynkCanId {
    /// The message with CAN-ID `id`, if it is one of LYNK's.
    pub fn from_u32(id: u32) -> (r: Option<LynkCanId>)
        ensures
            match r {
                Some(l) => spec_lynk_code(l) == id,
                None => forall|l: LynkCanId| spec_lynk_code(l) != id,
            },
    {
        match id {
            0x351 => Some(LynkCanId::BatteryLimits),
            0x354 => Some(LynkCanId::BatteryCapacity),
            0x355 => Some(LynkCanId::BatteryStatus),
            0x356 => Some(LynkCanId::BatteryMeasurements),
            0x35A => Some(LynkCanId::BatteryAlarms),
            0x35E => Some(LynkCanId::ManufacturerName),
            0x370 => Some(LynkCanId::ModelNameUpper),
            0x371 => Some(LynkCanId::ModelNameLower),
            0x372 => Some(LynkCanId::FirmwareVersion),
            0x373 => Some(LynkCanId::ProtocolVersion),
            _ => None,
        }
    }

    /// Whether `id` is a LYNK CAN-ID.
    pub fn is_lynk_id(id: u32) -> (b: bool)
        ensures
            b == exists|l: LynkCanId| spec_lynk_code(l) == id,
    {
        match LynkCanId::from_u32(id) {
            Some(l) => {
                assert(spec_lynk_code(l) == id);
                true
            },
            None => false,
        }
    }

    /// The CAN-ID of this message.
    pub fn code(&self) -> (c: u32)
        ensures
            c == spec_lynk_code(*self),
    {
        match self {
            LynkCanId::BatteryLimits => 0x351,
            LynkCanId::BatteryCapacity => 0x354,
            LynkCanId::BatteryStatus => 0x355,
            LynkCanId::BatteryMeasurements => 0x356,
            LynkCanId::BatteryAlarms => 0x35A,
            LynkCanId::ManufacturerName => 0x35E,
            LynkCanId::ModelNameUpper => 0x370,
            LynkCanId::ModelNameLower => 0x371,
            LynkCanId::FirmwareVersion => 0x372,
            LynkCanId::ProtocolVersion => 0x373,
        }
    }
}

/// No two LYNK messages share a CAN-ID, so `from_u32` of a message's code gives
/// that message back.
pub proof fn lemma_lynk_code_injective(a: LynkCanId, b: LynkCanId)
    requires
        spec_lynk_code(a) == spec_lynk_code(b),
    ensures
        a == b,
{
}

// ── Field extraction and decoding ──────────────────────────────────────────────

/// Why a point could not be read from a frame.
#[derive(Debug, Clone, Copy, PartialEq, Eq)]
pub enum CanDecodeError {
    /// The field starts past the end of the data.
    ByteOffsetOutOfRange { offset: u8, data_len: usize },
    /// A bit position that the field length does not allow.
    InvalidBitPosition { bit_position: u8, bit_length: u8 },
    /// The field runs past the end of the data.
    FieldPastEnd { offset: u8, bit_length: u8 },
    /// A field length other than 2, 8, 16, 32 or 64 bits.
    UnsupportedBitLength(u8),
    /// The field is shorter than its data type.
    FieldTooShort { data_type: CanDataType, got: usize },
}

/// Up to eight bytes taken from a frame.
#[derive(Debug, Clone, Copy)]
pub struct ExtractedField {
    data: [u8; 8],
    len: u8,
}

impl ExtractedField {
    #[verifier::type_invariant]
    spec fn inv(self) -> bool {
        self.len <= 8
    }

    /// The bytes held.
    pub closed spec fn bytes(self) -> Seq<u8> {
        self.data@.take(self.len as int)
    }

    /// A field holding the first (at most eight) bytes of `bytes`.
    pub fn new(bytes: &[u8]) -> (f: Self)
        ensures
            f.bytes() == spec_first8(bytes@),
    {
        let len: u8 = if bytes.len() < 8 {
            bytes.len() as u8
        } else {
            8
        };
        let data: [u8; 8] = [
            byte_or_zero(bytes, 0),
            byte_or_zero(bytes, 1),
            byte_or_zero(bytes, 2),
            byte_or_zero(bytes, 3),
            byte_or_zero(bytes, 4),
            byte_or_zero(bytes, 5),
            byte_or_zero(bytes, 6),
            byte_or_zero(bytes, 7),
        ];
        let f = ExtractedField { data, len };
        assert(f.bytes() =~= spec_first8(bytes@));
        f
    }

    /// A one-byte field.
    pub fn single(byte: u8) -> (f: Self)
        ensures
            f.bytes() == seq![byte],
    {
        let f = ExtractedField { data: [byte, 0, 0, 0, 0, 0, 0, 0], len: 1 };
        assert(f.bytes() =~= seq![byte]);
        f
    }

    /// The bytes held, as a slice.
    pub fn as_slice(&self) -> (s: &[u8])
        ensures
            s@ == self.bytes(),
    {
        proof {
            use_type_invariant(self);
        }
        let n = self.len as usize;
        let s = self.data.as_slice();
        &s[0..n]
    }
}

/// The two bits of `b` at `pos` and `pos + 1`.
pub open spec fn spec_two_bits(b: u8, pos: u8) -> u8 {
    ((b as nat / vstd::arithmetic::power2::pow2(pos as nat)) % 4) as u8
}

/// The bytes of a field: a 2-bit field as one byte holding its value; an 8, 16, 32
/// or 64-bit field (starting at bit 0) as its bytes.
pub open spec fn spec_extract_field(data: Seq<u8>, byte_offset: u8, bit_position: u8, bit_length: u8) -> Result<
    Seq<u8>,
    CanDecodeError,
> {
    let off = byte_offset as int;
    if off >= data.len() {
        Err(CanDecodeError::ByteOffsetOutOfRange { offset: byte_offset, data_len: data.len() as usize })
    } else if bit_length == 2 {
        if bit_position > 6 {
            Err(CanDecodeError::InvalidBitPosition { bit_position, bit_length })
        } else {
            Ok(seq![spec_two_bits(data[off], bit_position)])
        }
    } else if bit_length == 8 || bit_length == 16 || bit_length == 32 || bit_length == 64 {
        let n = bit_length as int / 8;
        if bit_position != 0 {
            Err(CanDecodeError::InvalidBitPosition { bit_position, bit_length })
        } else if off + n > data.len() {
            Err(CanDecodeError::FieldPastEnd { offset: byte_offset, bit_length })
        } else {
            Ok(data.subrange(off, off + n))
        }
    } else {
        Err(CanDecodeError::UnsupportedBitLength(bit_length))
    }
}

fn two_bits(b: u8, pos: u8) -> (r: u8)
    requires
        pos <= 6,
    ensures
        r == spec_two_bits(b, pos),
{
    let mut v: u8 = b;
    let mut k: u8 = 0;
    proof {
        vstd::arithmetic::power2::lemma2_to64();
    }
    while k < pos
        invariant
            k <= pos <= 6,
            v as nat == b as nat / vstd::arithmetic::power2::pow2(k as nat),
        decreases pos - k,
    {
        proof {
            vstd::arithmetic::power2::lemma_pow2_unfold((k + 1) as nat);
            vstd::arithmetic::power2::lemma_pow2_pos(k as nat);
            vstd::arithmetic::div_mod::lemma_div_denominator(
                b as int,
                vstd::arithmetic::power2::pow2(k as nat) as int,
                2,
            );
        }
        v = v / 2;
        k = k + 1;
    }
    v % 4
}

/// Take a field out of frame data.
pub fn extract_field(data: &[u8], byte_offset: u8, bit_position: u8, bit_length: u8) -> (r: Result<
    ExtractedField,
    CanDecodeError,
>)
    ensures
        match spec_extract_field(data@, byte_offset, bit_position, bit_length) {
            Ok(bytes) => r matches Ok(f) && f.bytes() == bytes,
            Err(e) => r == Err::<ExtractedField, CanDecodeError>(e),
        },
{
    let off = byte_offset as usize;
    if off >= data.len() {
        return Err(CanDecodeError::ByteOffsetOutOfRange { offset: byte_offset, data_len: data.len() });
    }
    if bit_length == 2 {
        if bit_position > 6 {
            return Err(CanDecodeError::InvalidBitPosition { bit_position, bit_length });
        }
        return Ok(ExtractedField::single(two_bits(data[off], bit_position)));
    }
    if bit_length == 8 || bit_length == 16 || bit_length == 32 || bit_length == 64 {
        let n = (bit_length / 8) as usize;
        if bit_position != 0 {
            return Err(CanDecodeError::InvalidBitPosition { bit_position, bit_length });
        }
        if off + n > data.len() {
            return Err(CanDecodeError::FieldPastEnd { offset: byte_offset, bit_length });
        }
        let f = ExtractedField::new(&data[off..off + n]);
        assert(spec_first8(data@.subrange(off as int, off + n)) == data@.subrange(off as int, off + n));
        return Ok(f);
    }
    Err(CanDecodeError::UnsupportedBitLength(bit_length))
}

/// A value read from a CAN field: an integer, the bits of an IEEE-754 single, or
/// text.
#[derive(Debug, Clone, PartialEq)]
pub enum CanValue {
    Integer(i64),
    Float32Bits(u32),
    Text(String),
}

/// The mathematical content of a `CanValue`.
pub enum CanValueView {
    Integer(int),
    Float32Bits(u32),
    Text(Seq<char>),
}

impl View for CanValue {
    type V = CanValueView;

    open spec fn view(&self) -> CanValueView {
        match self {
            CanValue::Integer(i) => CanValueView::Integer(*i as int),
            CanValue::Float32Bits(b) => CanValueView::Float32Bits(*b),
            CanValue::Text(s) => CanValueView::Text(s@),
        }
    }
}

/// `s` without its trailing NUL characters.
pub open spec fn spec_strip_nuls(s: Seq<char>) -> Seq<char>
    decreases s.len(),
{
    if s.len() > 0 && s.last() == '\0' {
        spec_strip_nuls(s.drop_last())
    } else {
        s
    }
}

/// The number of bytes a data type needs.
pub open spec fn spec_type_width(t: CanDataType) -> nat {
    match t {
        CanDataType::UInt8 => 1,
        CanDataType::UInt16 => 2,
        CanDataType::Int16 => 2,
        CanDataType::UInt32 => 4,
        CanDataType::Int32 => 4,
        CanDataType::Float32 => 4,
        CanDataType::Ascii => 0,
    }
}

/// The value of a point in frame data: its field read little-endian as its data
/// type; text stops before trailing NULs.
pub open spec fn spec_decode_point(p: CanPoint, frame: Seq<u8>) -> Result<CanValueView, CanDecodeError> {
    match spec_extract_field(frame, p.byte_offset, p.bit_position, p.bit_length) {
        Err(e) => Err(e),
        Ok(raw) => if raw.len() < spec_type_width(p.data_type) || raw.len() == 0 {
            Err(CanDecodeError::FieldTooShort { data_type: p.data_type, got: raw.len() as usize })
        } else {
            match p.data_type {
                CanDataType::UInt8 => Ok(CanValueView::Integer(raw[0] as int)),
                CanDataType::UInt16 => Ok(CanValueView::Integer(spec_le(raw, 2) as int)),
                CanDataType::Int16 => Ok(CanValueView::Integer(spec_signed(spec_le(raw, 2), 16))),
                CanDataType::UInt32 => Ok(CanValueView::Integer(spec_le(raw, 4) as int)),
                CanDataType::Int32 => Ok(CanValueView::Integer(spec_signed(spec_le(raw, 4), 32))),
                CanDataType::Float32 => Ok(CanValueView::Float32Bits(spec_le(raw, 4) as u32)),
                CanDataType::Ascii => Ok(CanValueView::Text(spec_strip_nuls(spec_utf8_lossy(raw)))),
            }
        },
    }
}

fn strip_nuls(s: String) -> (r: String)
    ensures
        r@ == spec_strip_nuls(s@),
{
    let cs = chars_of(s.as_str());
    let mut n = cs.len();
    assert(cs@.take(cs@.len() as int) =~= cs@);
    while n > 0 && cs[n - 1] == '\0'
        invariant
            n <= cs@.len(),
            spec_strip_nuls(cs@.take(n as int)) == spec_strip_nuls(cs@),
        decreases n,
    {
        assert(cs@.take(n as int).drop_last() =~= cs@.take(n - 1));
        n = n - 1;
    }
    assert(cs@.take(cs@.len() as int) =~= cs@);
    let t = crate::text::slice_range(cs.as_slice(), 0, n);
    string_from_chars(t.as_slice())
}

/// Read a point's value from frame data.
pub fn decode_point(point: &CanPoint, frame_data: &[u8]) -> (r: Result<CanValue, CanDecodeError>)
    ensures
        match spec_decode_point(*point, frame_data@) {
            Ok(v) => r matches Ok(x) && x@ == v,
            Err(e) => r == Err::<CanValue, CanDecodeError>(e),
        },
{
    let field = extract_field(frame_data, point.byte_offset, point.bit_position, point.bit_length)?;
    let raw = field.as_slice();
    let width: usize = match point.data_type {
        CanDataType::UInt8 => 1,
        CanDataType::UInt16 => 2,
        CanDataType::Int16 => 2,
        CanDataType::UInt32 => 4,
        CanDataType::Int32 => 4,
        CanDataType::Float32 => 4,
        CanDataType::Ascii => 0,
    };
    if raw.len() < width || raw.len() == 0 {
        return Err(CanDecodeError::FieldTooShort { data_type: point.data_type, got: raw.len() });
    }
    proof {
        lemma_pow2_bytes();
    }
    match point.data_type {
        CanDataType::UInt8 => Ok(CanValue::Integer(raw[0] as i64)),
        CanDataType::UInt16 => Ok(CanValue::Integer(read_le16(raw) as i64)),
        CanDataType::Int16 => {
            let v = read_le16(raw);
            if v >= 0x8000 {
                Ok(CanValue::Integer(v as i64 - 0x1_0000))
            } else {
                Ok(CanValue::Integer(v as i64))
            }
        },
        CanDataType::UInt32 => Ok(CanValue::Integer(read_le32(raw) as i64)),
        CanDataType::Int32 => {
            let v = read_le32(raw);
            if v >= 0x8000_0000 {
                Ok(CanValue::Integer(v as i64 - 0x1_0000_0000))
            } else {
                Ok(CanValue::Integer(v as i64))
            }
        },
        CanDataType::Float32 => Ok(CanValue::Float32Bits(read_le32(raw) as u32)),
        CanDataType::Ascii => Ok(CanValue::Text(strip_nuls(utf8_lossy(raw)))),
    }
}

// ── Point mappings ─────────────────────────────────────────────────────────────

/// The configured CAN points, by point id.
pub struct PointManager {
    points: HashMap<u32, CanPoint>,
}

impl PointManager {
    /// The points by id.
    pub closed spec fn points(self) -> Map<u32, CanPoint> {
        self.points@
    }

    /// A manager with no points.
    pub fn new() -> (m: Self)
        ensures
            m.points() == Map::<u32, CanPoint>::empty(),
    {
        PointManager { points: HashMap::new() }
    }

    /// Add `point`, replacing any point with the same id.
    pub fn add_point(&mut self, point: CanPoint)
        ensures
            final(self).points() == old(self).points().insert(point.point_id, point),
    {
        self.points.insert(point.point_id, point);
    }

    /// The ids of all points, each once, in no particular order.
    pub fn point_ids(&self) -> (ids: Vec<u32>)
        ensures
            ids@.to_set() == self.points().dom(),
            ids@.no_duplicates(),
    {
        let mut ids: Vec<u32> = Vec::new();
        let ghost keys = self.points.keys().remaining().unref();
        for k in it: self.points.keys()
            invariant
                ids@ == it.seq().take(it.index()).unref(),
        {
            ids.push(*k);
            proof {
                assert(it.seq().take(it.index() + 1).unref() =~= it.seq().take(it.index()).unref().push(
                    *k,
                ));
            }
        }
        proof {
            assert(ids@ =~= keys);
        }
        ids
    }

    /// The value of every point whose CAN-ID has a cached frame and whose field
    /// decodes; points that fail to decode are left out.
    pub fn apply_mappings(&self, frame_cache: &CanFrameCache) -> (r: Result<
        HashMap<u32, CanValue>,
        CanDecodeError,
    >)
        ensures
            r matches Ok(m) && forall|id: u32|
                #![trigger m@.contains_key(id)]
                (m@.contains_key(id) <==> (self.points().contains_key(id)
                    && frame_cache.contents().contains_key(self.points()[id].can_id)
                    && spec_decode_point(
                    self.points()[id],
                    frame_cache.contents()[self.points()[id].can_id],
                ) is Ok)) && (m@.contains_key(id) ==> spec_decode_point(
                    self.points()[id],
                    frame_cache.contents()[self.points()[id].can_id],
                ) == Ok::<CanValueView, CanDecodeError>(m@[id]@)),
    {
        let ids = self.point_ids();
        let mut result: HashMap<u32, CanValue> = HashMap::new();
        let mut i: usize = 0;
        while i < ids.len()
            invariant
                i <= ids@.len(),
                ids@.to_set() == self.points().dom(),
                ids@.no_duplicates(),
                forall|id: u32|
                    #![trigger result@.contains_key(id)]
                    (result@.contains_key(id) <==> (exists|j: int| 0 <= j < i && ids@[j] == id)
                        && self.points().contains_key(id) && frame_cache.contents().contains_key(
                        self.points()[id].can_id,
                    ) && spec_decode_point(
                        self.points()[id],
                        frame_cache.contents()[self.points()[id].can_id],
                    ) is Ok) && (result@.contains_key(id) ==> spec_decode_point(
                        self.points()[id],
                        frame_cache.contents()[self.points()[id].can_id],
                    ) == Ok::<CanValueView, CanDecodeError>(result@[id]@)),
            decreases ids@.len() - i,
        {
            let id = ids[i];
            assert(ids@.to_set().contains(id));
            let point = match self.points.get(&id) {
                Some(p) => *p,
                None => {
                    assert(false);
                    return Ok(result);
                },
            };
            match frame_cache.get(point.can_id) {
                Some(frame) => {
                    match decode_point(&point, frame) {
                        Ok(v) => {
                            result.insert(id, v);
                        },
                        Err(_) => {},
                    }
                },
                None => {},
            }
            i += 1;
            assert forall|x: u32| #![trigger result@.contains_key(x)]
                (exists|j: int| 0 <= j < i && ids@[j] == x) <==> ((exists|j: int|
                    0 <= j < i - 1 && ids@[j] == x) || x == id) by {
                if x == id {
                    assert(ids@[i - 1] == x);
                }
            }
        }
        assert forall|id: u32| self.points().contains_key(id) implies (exists|j: int|
            0 <= j < ids@.len() && ids@[j] == id) by {
            assert(ids@.to_set().contains(id));
        }
        Ok(result)
    }
}

} // verus!
