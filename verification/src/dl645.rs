//! DL/T 645-2007 frame codec: meter addresses, data identifiers, the
//! +0x33 data encoding, checksums, read-request frames and response frames.
use vstd::prelude::*;
use vstd::string::StringSliceAdditionalSpecFns;
use crate::text::{push_char, hex_upper, spec_hex_upper, spec_dec_digit};
use crate::bytes::push_all;
use crate::poll::PointFailure;
use crate::text::{push_decimal, spec_decimal, clone_opt_string};
use crate::duration::{duration_from_millis, millis_duration};
use std::time::Duration;

verus! {

/// Frame start marker.
pub const FRAME_START: u8 = 0x68;
/// Frame end marker.
pub const FRAME_END: u8 = 0x16;
/// Offset added to every data byte on the wire.
pub const DATA_OFFSET: u8 = 0x33;

/// A data byte as sent on the wire.
pub open spec fn encode_byte(b: u8) -> u8 {
    ((b + 0x33) % 256) as u8
}

/// A wire byte as decoded back.
pub open spec fn decode_byte(b: u8) -> u8 {
    ((b + 256 - 0x33) % 256) as u8
}

pub open spec fn spec_encode_data(s: Seq<u8>) -> Seq<u8> {
    Seq::new(s.len(), |i: int| encode_byte(s[i]))
}

pub open spec fn spec_decode_data(s: Seq<u8>) -> Seq<u8> {
    Seq::new(s.len(), |i: int| decode_byte(s[i]))
}

/// Sum of all bytes, as a natural number.
pub open spec fn byte_sum(s: Seq<u8>) -> nat
    decreases s.len(),
{
    if s.len() == 0 {
        0
    } else {
        byte_sum(s.drop_last()) + s.last() as nat
    }
}

/// DL/T 645 checksum: the byte sum modulo 256.
pub open spec fn spec_checksum(s: Seq<u8>) -> u8 {
    (byte_sum(s) % 256) as u8
}

/// Encode data bytes with the +0x33 offset.
pub fn encode_data(data: &[u8]) -> (out: Vec<u8>)
    ensures
        out@ == spec_encode_data(data@),
{
    let mut out: Vec<u8> = Vec::with_capacity(data.len());
    let mut i: usize = 0;
    while i < data.len()
        invariant
            i <= data.len(),
            out@ == spec_encode_data(data@.take(i as int)),
        decreases data.len() - i,
    {
        out.push(data[i].wrapping_add(DATA_OFFSET));
        i += 1;
        assert(out@ =~= spec_encode_data(data@.take(i as int)));
    }
    assert(data@.take(data.len() as int) =~= data@);
    out
}

/// Decode data bytes by removing the +0x33 offset.
pub fn decode_data(data: &[u8]) -> (out: Vec<u8>)
    ensures
        out@ == spec_decode_data(data@),
{
    let mut out: Vec<u8> = Vec::with_capacity(data.len());
    let mut i: usize = 0;
    while i < data.len()
        invariant
            i <= data.len(),
            out@ == spec_decode_data(data@.take(i as int)),
        decreases data.len() - i,
    {
        out.push(data[i].wrapping_sub(DATA_OFFSET));
        i += 1;
        assert(out@ =~= spec_decode_data(data@.take(i as int)));
    }
    assert(data@.take(data.len() as int) =~= data@);
    out
}

/// The wire form of data adds 0x33 to every byte (wrapping), byte for byte, and
/// decoding subtracts it (wrapping).
pub proof fn lemma_data_offset(d: Seq<u8>, i: int)
    requires
        0 <= i < d.len(),
    ensures
        spec_encode_data(d).len() == d.len(),
        spec_decode_data(d).len() == d.len(),
        spec_encode_data(d)[i] as int == (d[i] as int + 0x33) % 256,
        spec_decode_data(d)[i] as int == (d[i] as int - 0x33) % 256,
{
}

/// Checksum of a frame prefix: the sum of its bytes modulo 256.
pub fn calculate_checksum(frame: &[u8]) -> (cs: u8)
    ensures
        cs == spec_checksum(frame@),
{
    let mut acc: u8 = 0;
    let mut i: usize = 0;
    while i < frame.len()
        invariant
            i <= frame.len(),
            acc == spec_checksum(frame@.take(i as int)),
        decreases frame.len() - i,
    {
        assert(frame@.take(i + 1).drop_last() =~= frame@.take(i as int));
        acc = acc.wrapping_add(frame[i]);
        i += 1;
    }
    assert(frame@.take(frame.len() as int) =~= frame@);
    acc
}

/// Decoding undoes encoding, byte for byte.
pub proof fn lemma_decode_encode(s: Seq<u8>)
    ensures
        spec_decode_data(spec_encode_data(s)) == s,
{
    assert(spec_decode_data(spec_encode_data(s)) =~= s);
}


/// ASCII decimal digit.
pub open spec fn is_digit_byte(b: u8) -> bool {
    0x30 <= b && b <= 0x39
}

/// Value of an ASCII hex digit (either case), if it is one.
pub open spec fn spec_nibble(c: u8) -> Option<u8> {
    if 0x30 <= c && c <= 0x39 {
        Some((c - 0x30) as u8)
    } else if 0x41 <= c && c <= 0x46 {
        Some((c - 0x41 + 10) as u8)
    } else if 0x61 <= c && c <= 0x66 {
        Some((c - 0x61 + 10) as u8)
    } else {
        None
    }
}

/// Errors of the DL/T 645 codec.
#[derive(Debug, Clone, Copy, PartialEq, Eq)]
pub enum Dl645CodecError {
    /// A meter address string whose byte length is not 12.
    AddressLength(usize),
    /// A meter address string holding something other than decimal digits.
    AddressNotDigits,
    /// Wire address bytes whose count is not 6.
    WireAddressLength(usize),
    /// A data identifier string whose byte length is not 8.
    IdentifierLength(usize),
    /// A byte that is no hex digit.
    InvalidHexChar(u8),
    /// A frame shorter than 14 bytes.
    FrameTooShort(usize),
    /// A frame whose two start markers are not 0x68.
    InvalidStartMarkers,
    /// A frame whose last byte is not 0x16.
    InvalidEndMarker,
    /// A frame whose checksum byte differs from the computed one.
    ChecksumMismatch { expected_cs: u8, got_cs: u8 },
    /// A frame whose length disagrees with its length byte.
    FrameLengthMismatch { expected_len: usize, got_len: usize },
    /// An error response of the meter, with its error code.
    MeterError(Dl645Error),
    /// An error response without an error code.
    MeterErrorWithoutCode,
    /// A control code other than the normal read response.
    UnexpectedControlCode(u8),
    /// Response data too short to hold the data identifier echo.
    DataTooShortForIdentifier,
    /// Too few data bytes for the requested value format.
    InsufficientData,
}

/// Error codes carried by a meter's error response.
#[derive(Debug, Clone, Copy, PartialEq, Eq)]
pub enum Dl645Error {
    /// Rate/block number does not exist
    NoData,
    /// Date/time error
    DateError,
    /// No permission
    NoPermission,
    /// Frame verification error
    FrameError,
    /// Other error
    OtherError,
}

pub open spec fn spec_meter_error_of(code: u8) -> Dl645Error {
    if code == 0x01 {
        Dl645Error::NoData
    } else if code == 0x02 {
        Dl645Error::DateError
    } else if code == 0x04 {
        Dl645Error::NoPermission
    } else if code == 0x08 {
        Dl645Error::FrameError
    } else {
        Dl645Error::OtherError
    }
}

impl Dl645Error {
    /// The code that the standard assigns to this error.
    pub fn code(&self) -> (c: u8)
        ensures
            c == match *self {
                Dl645Error::NoData => 0x01u8,
                Dl645Error::DateError => 0x02u8,
                Dl645Error::NoPermission => 0x04u8,
                Dl645Error::FrameError => 0x08u8,
                Dl645Error::OtherError => 0x10u8,
            },
    {
        match self {
            Dl645Error::NoData => 0x01,
            Dl645Error::DateError => 0x02,
            Dl645Error::NoPermission => 0x04,
            Dl645Error::FrameError => 0x08,
            Dl645Error::OtherError => 0x10,
        }
    }

    /// The error that a meter reports with `code`.
    pub fn from_code(code: u8) -> (e: Dl645Error)
        ensures
            e == spec_meter_error_of(code),
    {
        if code == 0x01 {
            Dl645Error::NoData
        } else if code == 0x02 {
            Dl645Error::DateError
        } else if code == 0x04 {
            Dl645Error::NoPermission
        } else if code == 0x08 {
            Dl645Error::FrameError
        } else {
            Dl645Error::OtherError
        }
    }
}

/// Value of a hex digit byte.
pub fn hex_char_to_nibble(c: u8) -> (r: Result<u8, Dl645CodecError>)
    ensures
        match spec_nibble(c) {
            Some(v) => r == Ok::<u8, Dl645CodecError>(v),
            None => r == Err::<u8, Dl645CodecError>(Dl645CodecError::InvalidHexChar(c)),
        },
{
    if 0x30 <= c && c <= 0x39 {
        Ok(c - 0x30)
    } else if 0x41 <= c && c <= 0x46 {
        Ok(c - 0x41 + 10)
    } else if 0x61 <= c && c <= 0x66 {
        Ok(c - 0x61 + 10)
    } else {
        Err(Dl645CodecError::InvalidHexChar(c))
    }
}

/// 12-digit BCD meter address, held high byte first.
#[derive(Debug, Clone, Copy, PartialEq, Eq)]
pub struct MeterAddress {
    bytes: [u8; 6],
}

impl View for MeterAddress {
    type V = Seq<u8>;

    closed spec fn view(&self) -> Seq<u8> {
        self.bytes@
    }
}

/// The BCD byte made of two ASCII digits.
pub open spec fn bcd_pair(hi: u8, lo: u8) -> u8 {
    ((hi - 0x30) * 16 + (lo - 0x30)) as u8
}

/// The six address bytes that a 12-digit string denotes.
pub open spec fn spec_address_of_digits(s: Seq<u8>) -> Seq<u8> {
    Seq::new(6, |i: int| bcd_pair(s[2 * i], s[2 * i + 1]))
}

impl MeterAddress {
    /// Parse a 12-digit decimal string.
    pub fn parse(s: &str) -> (r: Result<MeterAddress, Dl645CodecError>)
        ensures
            s.spec_bytes().len() != 12 ==> r == Err::<MeterAddress, Dl645CodecError>(
                Dl645CodecError::AddressLength(s.spec_bytes().len() as usize),
            ),
            s.spec_bytes().len() == 12 && !(forall|i: int|
                0 <= i < 12 ==> #[trigger] is_digit_byte(s.spec_bytes()[i])) ==> r == Err::<
                MeterAddress,
                Dl645CodecError,
            >(Dl645CodecError::AddressNotDigits),
            s.spec_bytes().len() == 12 && (forall|i: int|
                0 <= i < 12 ==> #[trigger] is_digit_byte(s.spec_bytes()[i])) ==> r.is_ok()
                && r.unwrap()@ == spec_address_of_digits(s.spec_bytes()),
    {
        let b = s.as_bytes();
        if b.len() != 12 {
            return Err(Dl645CodecError::AddressLength(b.len()));
        }
        let mut i: usize = 0;
        while i < 12
            invariant
                i <= 12,
                b@ == s.spec_bytes(),
                b@.len() == 12,
                forall|j: int| 0 <= j < i ==> #[trigger] is_digit_byte(b@[j]),
            decreases 12 - i,
        {
            if !(0x30 <= b[i] && b[i] <= 0x39) {
                assert(!is_digit_byte(s.spec_bytes()[i as int]));
                return Err(Dl645CodecError::AddressNotDigits);
            }
            i += 1;
        }
        assert(is_digit_byte(b@[0]) && is_digit_byte(b@[1]) && is_digit_byte(b@[2])
            && is_digit_byte(b@[3]) && is_digit_byte(b@[4]) && is_digit_byte(b@[5]));
        assert(is_digit_byte(b@[6]) && is_digit_byte(b@[7]) && is_digit_byte(b@[8])
            && is_digit_byte(b@[9]) && is_digit_byte(b@[10]) && is_digit_byte(b@[11]));
        let bytes = [
            (b[0] - 0x30) * 16 + (b[1] - 0x30),
            (b[2] - 0x30) * 16 + (b[3] - 0x30),
            (b[4] - 0x30) * 16 + (b[5] - 0x30),
            (b[6] - 0x30) * 16 + (b[7] - 0x30),
            (b[8] - 0x30) * 16 + (b[9] - 0x30),
            (b[10] - 0x30) * 16 + (b[11] - 0x30),
        ];
        let a = MeterAddress { bytes };
        assert(a@ =~= spec_address_of_digits(s.spec_bytes()));
        Ok(a)
    }

    /// The broadcast address, all bytes 0xAA.
    pub fn broadcast() -> (a: MeterAddress)
        ensures
            a@ == seq![0xAAu8, 0xAAu8, 0xAAu8, 0xAAu8, 0xAAu8, 0xAAu8],
    {
        let a = MeterAddress { bytes: [0xAA; 6] };
        assert(a@ =~= seq![0xAAu8, 0xAAu8, 0xAAu8, 0xAAu8, 0xAAu8, 0xAAu8]);
        a
    }

    /// The address bytes in wire order (low byte first).
    pub fn to_wire_bytes(&self) -> (w: [u8; 6])
        ensures
            w@ == self@.reverse(),
    {
        let b = self.bytes;
        let w = [b[5], b[4], b[3], b[2], b[1], b[0]];
        assert(w@ =~= self@.reverse());
        w
    }

    /// Read an address from its six wire bytes.
    pub fn from_wire_bytes(wire: &[u8]) -> (r: Result<MeterAddress, Dl645CodecError>)
        ensures
            wire@.len() != 6 ==> r == Err::<MeterAddress, Dl645CodecError>(
                Dl645CodecError::WireAddressLength(wire@.len() as usize),
            ),
            wire@.len() == 6 ==> r.is_ok() && r.unwrap()@ == wire@.reverse(),
    {
        if wire.len() != 6 {
            return Err(Dl645CodecError::WireAddressLength(wire.len()));
        }
        let a = MeterAddress { bytes: [wire[5], wire[4], wire[3], wire[2], wire[1], wire[0]] };
        assert(a@ =~= wire@.reverse());
        Ok(a)
    }

    /// The six address bytes, high byte first.
    pub fn bytes(&self) -> (b: [u8; 6])
        ensures
            b@ == self@,
    {
        self.bytes
    }
}


/// An address read back from its wire bytes is the address itself.
pub proof fn lemma_wire_roundtrip(address: Seq<u8>)
    requires
        address.len() == 6,
    ensures
        address.reverse().len() == 6,
        address.reverse().reverse() == address,
{
    assert(address.reverse().reverse() =~= address);
}

/// Decimal text of a value below 16 (one or two digits).
pub open spec fn spec_small_dec(n: u8) -> Seq<char> {
    if n < 10 {
        seq![spec_dec_digit(n)]
    } else {
        seq!['1', spec_dec_digit((n - 10) as u8)]
    }
}

/// Text of address bytes: each nibble printed in decimal, high nibble first.
pub open spec fn spec_address_text(b: Seq<u8>) -> Seq<char>
    decreases b.len(),
{
    if b.len() == 0 {
        Seq::empty()
    } else {
        spec_address_text(b.drop_last()) + spec_small_dec(b.last() / 16) + spec_small_dec(
            b.last() % 16,
        )
    }
}

fn push_small_dec(s: &mut String, n: u8)
    requires
        n < 16,
    ensures
        final(s)@ == old(s)@ + spec_small_dec(n),
{
    if n < 10 {
        push_char(s, (n + 48) as char);
    } else {
        push_char(s, '1');
        push_char(s, (n - 10 + 48) as char);
    }
    assert(final(s)@ =~= old(s)@ + spec_small_dec(n));
}

impl MeterAddress {
    /// The address as text: every nibble in decimal, high byte first.
    pub fn to_string(&self) -> (t: String)
        ensures
            t@ == spec_address_text(self@),
    {
        let mut t = String::new();
        let mut i: usize = 0;
        while i < 6
            invariant
                i <= 6,
                self@.len() == 6,
                t@ == spec_address_text(self@.take(i as int)),
            decreases 6 - i,
        {
            let b = self.bytes[i];
            assert(self@.take(i + 1).drop_last() =~= self@.take(i as int));
            push_small_dec(&mut t, b / 16);
            push_small_dec(&mut t, b % 16);
            i += 1;
        }
        assert(self@.take(6) =~= self@);
        t
    }
}

/// The characters of ASCII bytes.
pub open spec fn spec_ascii_chars(b: Seq<u8>) -> Seq<char> {
    Seq::new(b.len(), |i: int| b[i] as char)
}

proof fn lemma_digit_pair_text(hi: u8, lo: u8)
    requires
        is_digit_byte(hi),
        is_digit_byte(lo),
    ensures
        spec_small_dec(bcd_pair(hi, lo) / 16) + spec_small_dec(bcd_pair(hi, lo) % 16) == seq![
            hi as char,
            lo as char,
        ],
{
    let b = bcd_pair(hi, lo);
    assert(b / 16 == hi - 0x30 && b % 16 == lo - 0x30);
    assert(spec_small_dec(b / 16) =~= seq![hi as char]);
    assert(spec_small_dec(b % 16) =~= seq![lo as char]);
    assert(seq![hi as char] + seq![lo as char] =~= seq![hi as char, lo as char]);
}

proof fn lemma_address_text_prefix(digits: Seq<u8>, k: int)
    requires
        digits.len() == 12,
        forall|i: int| 0 <= i < 12 ==> #[trigger] is_digit_byte(digits[i]),
        0 <= k <= 6,
    ensures
        spec_address_text(spec_address_of_digits(digits).take(k)) == spec_ascii_chars(digits.take(2 * k)),
    decreases k,
{
    let a = spec_address_of_digits(digits);
    if k == 0 {
        assert(spec_ascii_chars(digits.take(0)) =~= Seq::<char>::empty());
    } else {
        lemma_address_text_prefix(digits, k - 1);
        assert(a.take(k).drop_last() =~= a.take(k - 1));
        assert(a.take(k).last() == bcd_pair(digits[2 * k - 2], digits[2 * k - 1]));
        assert(is_digit_byte(digits[2 * k - 2]) && is_digit_byte(digits[2 * k - 1]));
        lemma_digit_pair_text(digits[2 * k - 2], digits[2 * k - 1]);
        assert(spec_ascii_chars(digits.take(2 * k)) =~= spec_ascii_chars(digits.take(2 * k - 2)) + seq![
            digits[2 * k - 2] as char,
            digits[2 * k - 1] as char,
        ]);
    }
}

/// An address parsed from twelve digits prints as those twelve digits.
pub proof fn lemma_address_text_roundtrip(digits: Seq<u8>)
    requires
        digits.len() == 12,
        forall|i: int| 0 <= i < 12 ==> #[trigger] is_digit_byte(digits[i]),
    ensures
        spec_address_text(spec_address_of_digits(digits)) == spec_ascii_chars(digits),
{
    lemma_address_text_prefix(digits, 6);
    assert(spec_address_of_digits(digits).take(6) =~= spec_address_of_digits(digits));
    assert(digits.take(12) =~= digits);
}

/// 4-byte data identifier, held in wire order [DI0, DI1, DI2, DI3].
#[derive(Debug, Clone, Copy, PartialEq, Eq)]
pub struct DataIdentifier {
    bytes: [u8; 4],
}

impl View for DataIdentifier {
    type V = Seq<u8>;

    closed spec fn view(&self) -> Seq<u8> {
        self.bytes@
    }
}

/// The byte that two hex digits denote.
pub open spec fn hex_pair(hi: u8, lo: u8) -> u8 {
    (spec_nibble(hi).unwrap() * 16 + spec_nibble(lo).unwrap()) as u8
}

/// The wire-order identifier bytes that 8 hex digits (DI3..DI0) denote.
pub open spec fn spec_identifier_of_hex(s: Seq<u8>) -> Seq<u8> {
    seq![hex_pair(s[6], s[7]), hex_pair(s[4], s[5]), hex_pair(s[2], s[3]), hex_pair(s[0], s[1])]
}

/// Wire-order bytes of a 32-bit identifier code (DI3 is the high byte).
pub open spec fn spec_identifier_of_code(v: u32) -> Seq<u8> {
    seq![
        (v % 256) as u8,
        ((v / 256) % 256) as u8,
        ((v / 65536) % 256) as u8,
        ((v / 16777216) % 256) as u8,
    ]
}

/// The 32-bit code of wire-order identifier bytes.
pub open spec fn spec_code_of_identifier(b: Seq<u8>) -> int {
    b[0] + 256 * b[1] + 65536 * b[2] + 16777216 * b[3]
}

/// Text of an identifier: DI3..DI0 as upper-case hex.
pub open spec fn spec_identifier_text(b: Seq<u8>) -> Seq<char> {
    seq![
        spec_hex_upper(b[3] / 16),
        spec_hex_upper(b[3] % 16),
        spec_hex_upper(b[2] / 16),
        spec_hex_upper(b[2] % 16),
        spec_hex_upper(b[1] / 16),
        spec_hex_upper(b[1] % 16),
        spec_hex_upper(b[0] / 16),
        spec_hex_upper(b[0] % 16),
    ]
}

impl DataIdentifier {
    /// Parse 8 hex digits DI3-DI2-DI1-DI0 (e.g. "00010000").
    pub fn from_hex_str(s: &str) -> (r: Result<DataIdentifier, Dl645CodecError>)
        ensures
            s.spec_bytes().len() != 8 ==> r == Err::<DataIdentifier, Dl645CodecError>(
                Dl645CodecError::IdentifierLength(s.spec_bytes().len() as usize),
            ),
            s.spec_bytes().len() == 8 && (forall|i: int|
                0 <= i < 8 ==> (#[trigger] spec_nibble(s.spec_bytes()[i])).is_some()) ==> r.is_ok()
                && r.unwrap()@ == spec_identifier_of_hex(s.spec_bytes()),
            s.spec_bytes().len() == 8 && !(forall|i: int|
                0 <= i < 8 ==> (#[trigger] spec_nibble(s.spec_bytes()[i])).is_some()) ==> exists|
                k: int,
            |
                0 <= k < 8 && spec_nibble(s.spec_bytes()[k]).is_none() && (forall|j: int|
                    0 <= j < k ==> (#[trigger] spec_nibble(s.spec_bytes()[j])).is_some()) && r
                    == Err::<DataIdentifier, Dl645CodecError>(
                    Dl645CodecError::InvalidHexChar(s.spec_bytes()[k]),
                ),
    {
        let b = s.as_bytes();
        if b.len() != 8 {
            return Err(Dl645CodecError::IdentifierLength(b.len()));
        }
        let mut vals: Vec<u8> = Vec::with_capacity(8);
        let mut i: usize = 0;
        while i < 8
            invariant
                i <= 8,
                b@ == s.spec_bytes(),
                b@.len() == 8,
                vals@.len() == i,
                forall|j: int| 0 <= j < i ==> (#[trigger] spec_nibble(b@[j])).is_some(),
                forall|j: int| 0 <= j < i ==> vals@[j] == spec_nibble(b@[j]).unwrap(),
            decreases 8 - i,
        {
            match hex_char_to_nibble(b[i]) {
                Ok(v) => {
                    vals.push(v);
                },
                Err(e) => {
                    assert(spec_nibble(b@[i as int]).is_none());
                    return Err(e);
                },
            }
            i += 1;
        }
        let d = DataIdentifier {
            bytes: [
                vals[6] * 16 + vals[7],
                vals[4] * 16 + vals[5],
                vals[2] * 16 + vals[3],
                vals[0] * 16 + vals[1],
            ],
        };
        assert(d@ =~= spec_identifier_of_hex(s.spec_bytes()));
        Ok(d)
    }

    /// Identifier from wire-order bytes [DI0, DI1, DI2, DI3].
    pub fn from_bytes(bytes: [u8; 4]) -> (d: DataIdentifier)
        ensures
            d@ == bytes@,
    {
        DataIdentifier { bytes }
    }

    /// Identifier from its 32-bit code DI3-DI2-DI1-DI0 (DI3 the high byte).
    pub fn from_u32(value: u32) -> (d: DataIdentifier)
        ensures
            d@ == spec_identifier_of_code(value),
    {
        let d = DataIdentifier {
            bytes: [
                (value % 256) as u8,
                ((value / 256) % 256) as u8,
                ((value / 65536) % 256) as u8,
                ((value / 16777216) % 256) as u8,
            ],
        };
        assert(d@ =~= spec_identifier_of_code(value));
        d
    }

    /// The bytes in wire order [DI0, DI1, DI2, DI3].
    pub fn to_wire_bytes(&self) -> (w: [u8; 4])
        ensures
            w@ == self@,
    {
        self.bytes
    }

    /// The 32-bit code DI3-DI2-DI1-DI0.
    pub fn code(&self) -> (c: u32)
        ensures
            c == spec_code_of_identifier(self@),
    {
        self.bytes[0] as u32 + 256 * (self.bytes[1] as u32) + 65536 * (self.bytes[2] as u32)
            + 16777216 * (self.bytes[3] as u32)
    }

    /// The identifier as 8 upper-case hex digits, DI3 first.
    pub fn to_hex_string(&self) -> (t: String)
        ensures
            t@ == spec_identifier_text(self@),
    {
        let b = self.bytes;
        let mut t = String::new();
        push_char(&mut t, hex_upper(b[3] / 16));
        push_char(&mut t, hex_upper(b[3] % 16));
        push_char(&mut t, hex_upper(b[2] / 16));
        push_char(&mut t, hex_upper(b[2] % 16));
        push_char(&mut t, hex_upper(b[1] / 16));
        push_char(&mut t, hex_upper(b[1] % 16));
        push_char(&mut t, hex_upper(b[0] / 16));
        push_char(&mut t, hex_upper(b[0] % 16));
        assert(t@ =~= spec_identifier_text(self@));
        t
    }
}

/// A code and its identifier bytes determine each other.
pub proof fn lemma_identifier_code_roundtrip(v: u32)
    ensures
        spec_code_of_identifier(spec_identifier_of_code(v)) == v,
{
}


proof fn lemma_hex_digit_nibble(n: u8)
    requires
        n < 16,
    ensures
        spec_nibble(spec_hex_upper(n) as u8) == Some(n),
{
}

proof fn lemma_byte_hex_pair(b: u8)
    ensures
        hex_pair(spec_hex_upper(b / 16) as u8, spec_hex_upper(b % 16) as u8) == b,
{
    lemma_hex_digit_nibble(b / 16);
    lemma_hex_digit_nibble(b % 16);
}

/// The text of an identifier is eight upper-case hex digits that parse back to
/// the same identifier; for an identifier made from a 32-bit code, the digits
/// are those of the code, most significant first (as `{:08X}` prints it).
pub proof fn lemma_identifier_text_roundtrip(b: Seq<u8>, v: u32)
    requires
        b.len() == 4,
    ensures
        spec_identifier_text(b).len() == 8,
        forall|i: int|
            0 <= i < 8 ==> {
                let c = #[trigger] spec_identifier_text(b)[i];
                ('0' <= c && c <= '9') || ('A' <= c && c <= 'F')
            },
        forall|i: int|
            0 <= i < 8 ==> (#[trigger] spec_nibble(spec_identifier_text(b)[i] as u8)).is_some(),
        spec_identifier_of_hex(spec_identifier_text(b).map_values(|c: char| c as u8)) == b,
        forall|k: int|
            0 <= k < 8 ==> #[trigger] spec_identifier_text(spec_identifier_of_code(v))[k] == spec_hex_upper(
                ((v as int / vstd::arithmetic::power::pow(16, (7 - k) as nat)) % 16) as u8,
            ),
{
    let t = spec_identifier_text(b);
    assert forall|i: int| 0 <= i < 8 implies (#[trigger] spec_nibble(t[i] as u8)).is_some() by {
        let byte = b[3 - i / 2];
        if i % 2 == 0 {
            lemma_hex_digit_nibble(byte / 16);
        } else {
            lemma_hex_digit_nibble(byte % 16);
        }
    }
    let bytes = t.map_values(|c: char| c as u8);
    lemma_byte_hex_pair(b[0]);
    lemma_byte_hex_pair(b[1]);
    lemma_byte_hex_pair(b[2]);
    lemma_byte_hex_pair(b[3]);
    assert(spec_identifier_of_hex(bytes) =~= b);
    lemma_code_digits(v);
}

proof fn lemma_code_digits(v: u32)
    ensures
        forall|k: int|
            0 <= k < 8 ==> #[trigger] spec_identifier_text(spec_identifier_of_code(v))[k] == spec_hex_upper(
                ((v as int / vstd::arithmetic::power::pow(16, (7 - k) as nat)) % 16) as u8,
            ),
{
    reveal_with_fuel(vstd::arithmetic::power::pow, 8);
    let x = v as int;
    assert(((x % 256) / 16) == (x / 16) % 16 && (x % 256) % 16 == x % 16) by (nonlinear_arith)
        requires
            x >= 0,
    ;
    assert((((x / 256) % 256) / 16) == (x / 4096) % 16 && ((x / 256) % 256) % 16 == (x / 256) % 16)
        by (nonlinear_arith)
        requires
            x >= 0,
    ;
    assert((((x / 65536) % 256) / 16) == (x / 1048576) % 16 && ((x / 65536) % 256) % 16 == (x / 65536)
        % 16) by (nonlinear_arith)
        requires
            x >= 0,
    ;
    assert((((x / 16777216) % 256) / 16) == (x / 268435456) % 16 && ((x / 16777216) % 256) % 16 == (x
        / 16777216) % 16) by (nonlinear_arith)
        requires
            x >= 0,
    ;
}

/// Control code of a read-data request.
pub const CTRL_READ_DATA: u8 = 0x11;
/// Control code of a normal read-data response.
pub const CTRL_READ_DATA_RESP: u8 = 0x91;
/// Control code of an error response.
pub const CTRL_READ_DATA_ERR: u8 = 0xD1;

/// Everything of a read request frame before its checksum.
pub open spec fn spec_read_request_prefix(addr: Seq<u8>, di: Seq<u8>) -> Seq<u8> {
    seq![FRAME_START] + addr.reverse() + seq![FRAME_START, CTRL_READ_DATA, 4u8]
        + spec_encode_data(di)
}

/// The read request frame for a meter address (high byte first) and an identifier
/// (wire order).
pub open spec fn spec_read_request(addr: Seq<u8>, di: Seq<u8>) -> Seq<u8> {
    let p = spec_read_request_prefix(addr, di);
    p + seq![spec_checksum(p), FRAME_END]
}

/// Build the read-data request frame:
/// 68H, address (6 bytes, reversed), 68H, 11H, 04H, DI (+33H each), CS, 16H.
pub fn encode_read_request(meter_addr: &MeterAddress, data_id: &DataIdentifier) -> (frame: Vec<u8>)
    ensures
        frame@ == spec_read_request(meter_addr@, data_id@),
        frame@.len() == 16,
{
    let mut frame: Vec<u8> = Vec::with_capacity(16);
    frame.push(FRAME_START);
    let wire = meter_addr.to_wire_bytes();
    push_all(&mut frame, &wire);
    frame.push(FRAME_START);
    frame.push(CTRL_READ_DATA);
    frame.push(4);
    let di_bytes = data_id.to_wire_bytes();
    let enc = encode_data(&di_bytes);
    push_all(&mut frame, enc.as_slice());
    let ghost p = frame@;
    assert(p =~= spec_read_request_prefix(meter_addr@, data_id@));
    let cs = calculate_checksum(frame.as_slice());
    frame.push(cs);
    frame.push(FRAME_END);
    assert(frame@ =~= spec_read_request(meter_addr@, data_id@));
    frame
}

/// A parsed response frame.
#[derive(Debug)]
pub struct Dl645Response {
    /// Meter address from the response
    pub meter_addr: MeterAddress,
    /// Data identifier echoed by the response
    pub data_id: DataIdentifier,
    /// Decoded data bytes after the identifier
    pub data: Vec<u8>,
}

/// What a response frame decodes to: (address high byte first, identifier in wire order,
/// data), or the first check that fails.
pub open spec fn spec_decode_response(f: Seq<u8>) -> Result<
    (Seq<u8>, Seq<u8>, Seq<u8>),
    Dl645CodecError,
> {
    let n = f.len();
    if n < 14 {
        Err(Dl645CodecError::FrameTooShort(n as usize))
    } else if f[0] != FRAME_START || f[7] != FRAME_START {
        Err(Dl645CodecError::InvalidStartMarkers)
    } else if f[n - 1] != FRAME_END {
        Err(Dl645CodecError::InvalidEndMarker)
    } else if f[n - 2] != spec_checksum(f.take(n - 2)) {
        Err(Dl645CodecError::ChecksumMismatch { expected_cs: spec_checksum(f.take(n - 2)), got_cs: f[n - 2] })
    } else if n != 12 + f[9] {
        Err(Dl645CodecError::FrameLengthMismatch { expected_len: (12 + f[9]) as usize, got_len: n as usize })
    } else if f[8] == CTRL_READ_DATA_ERR {
        if f[9] > 0 {
            Err(Dl645CodecError::MeterError(spec_meter_error_of(decode_byte(f[10]))))
        } else {
            Err(Dl645CodecError::MeterErrorWithoutCode)
        }
    } else if f[8] != CTRL_READ_DATA_RESP {
        Err(Dl645CodecError::UnexpectedControlCode(f[8]))
    } else if f[9] < 4 {
        Err(Dl645CodecError::DataTooShortForIdentifier)
    } else {
        let d = spec_decode_data(f.subrange(10, 10 + f[9]));
        Ok((f.subrange(1, 7).reverse(), d.take(4), d.skip(4)))
    }
}

/// Parse a response frame.
pub fn decode_response(frame: &[u8]) -> (r: Result<Dl645Response, Dl645CodecError>)
    ensures
        match spec_decode_response(frame@) {
            Ok((a, d, x)) => r matches Ok(resp) && resp.meter_addr@ == a && resp.data_id@ == d
                && resp.data@ == x,
            Err(e) => r matches Err(e2) && e2 == e,
        },
{
    let n = frame.len();
    if n < 14 {
        return Err(Dl645CodecError::FrameTooShort(n));
    }
    if frame[0] != FRAME_START || frame[7] != FRAME_START {
        return Err(Dl645CodecError::InvalidStartMarkers);
    }
    if frame[n - 1] != FRAME_END {
        return Err(Dl645CodecError::InvalidEndMarker);
    }
    let cs_idx = n - 2;
    let expected_cs = calculate_checksum(&frame[0..cs_idx]);
    assert(frame@.subrange(0, cs_idx as int) =~= frame@.take(cs_idx as int));
    if frame[cs_idx] != expected_cs {
        return Err(Dl645CodecError::ChecksumMismatch { expected_cs, got_cs: frame[cs_idx] });
    }
    let meter_addr = match MeterAddress::from_wire_bytes(&frame[1..7]) {
        Ok(a) => a,
        Err(e) => {
            return Err(e);
        },
    };
    let ctrl = frame[8];
    let data_len = frame[9] as usize;
    let expected_len = 10 + data_len + 2;
    if n != expected_len {
        return Err(Dl645CodecError::FrameLengthMismatch { expected_len, got_len: n });
    }
    if ctrl == CTRL_READ_DATA_ERR {
        if data_len > 0 {
            let code = frame[10].wrapping_sub(DATA_OFFSET);
            return Err(Dl645CodecError::MeterError(Dl645Error::from_code(code)));
        }
        return Err(Dl645CodecError::MeterErrorWithoutCode);
    }
    if ctrl != CTRL_READ_DATA_RESP {
        return Err(Dl645CodecError::UnexpectedControlCode(ctrl));
    }
    let decoded = decode_data(&frame[10..10 + data_len]);
    if decoded.len() < 4 {
        return Err(Dl645CodecError::DataTooShortForIdentifier);
    }
    let data_id = DataIdentifier::from_bytes([decoded[0], decoded[1], decoded[2], decoded[3]]);
    let mut data: Vec<u8> = Vec::with_capacity(decoded.len() - 4);
    let mut i: usize = 4;
    while i < decoded.len()
        invariant
            4 <= i <= decoded@.len(),
            data@ == decoded@.subrange(4, i as int),
        decreases decoded@.len() - i,
    {
        data.push(decoded[i]);
        i += 1;
        assert(data@ =~= decoded@.subrange(4, i as int));
    }
    let ghost d = spec_decode_data(frame@.subrange(10, 10 + frame@[9]));
    assert(decoded@ =~= d);
    assert(data_id@ =~= d.take(4));
    assert(data@ =~= d.skip(4));
    Ok(Dl645Response { meter_addr, data_id, data })
}

/// Everything of a normal response frame before its checksum.
pub open spec fn spec_response_prefix(addr: Seq<u8>, di: Seq<u8>, data: Seq<u8>) -> Seq<u8> {
    seq![FRAME_START] + addr.reverse() + seq![FRAME_START, CTRL_READ_DATA_RESP, (4 + data.len()) as u8]
        + spec_encode_data(di + data)
}

/// The normal response frame that a meter sends for an address, identifier and data.
pub open spec fn spec_response_frame(addr: Seq<u8>, di: Seq<u8>, data: Seq<u8>) -> Seq<u8> {
    let p = spec_response_prefix(addr, di, data);
    p + seq![spec_checksum(p), FRAME_END]
}

/// A well-formed normal response decodes to the address, identifier and data it carries.
pub proof fn lemma_response_roundtrip(addr: Seq<u8>, di: Seq<u8>, data: Seq<u8>)
    requires
        addr.len() == 6,
        di.len() == 4,
        data.len() <= 251,
    ensures
        spec_decode_response(spec_response_frame(addr, di, data)) == Ok::<
            (Seq<u8>, Seq<u8>, Seq<u8>),
            Dl645CodecError,
        >((addr, di, data)),
{
    let p = spec_response_prefix(addr, di, data);
    let f = spec_response_frame(addr, di, data);
    let n = f.len();
    assert(p.len() == 14 + data.len());
    assert(n == 16 + data.len());
    assert(f.take(n - 2) =~= p);
    assert(f[9] == 4 + data.len());
    assert(f.subrange(1, 7) =~= addr.reverse());
    assert(f.subrange(1, 7).reverse() =~= addr);
    assert(f.subrange(10, 10 + f[9]) =~= spec_encode_data(di + data));
    lemma_decode_encode(di + data);
    assert((di + data).take(4) =~= di);
    assert((di + data).skip(4) =~= data);
}

/// Format of a data item's value.
#[derive(Debug, Clone, Copy, PartialEq, Eq)]
pub enum DataFormat {
    /// XXXXXX.XX (6 integer digits + 2 decimal digits)
    Energy,
    /// XXX.X (3 integer digits + 1 decimal digit)
    Voltage,
    /// XXX.XXX (3 integer digits + 3 decimal digits)
    Current,
    /// XX.XXXX (2 integer digits + 4 decimal digits, can be negative)
    Power,
    /// X.XXX (1 integer digit + 3 decimal digits, can be negative)
    PowerFactor,
    /// Raw bytes (no parsing)
    Raw,
}

/// The format that an identifier code's high 16 bits select.
pub open spec fn spec_format_of_code(di_code: u32) -> DataFormat {
    let high = di_code / 65536;
    if high == 0x0001 || high == 0x0002 {
        DataFormat::Energy
    } else if high == 0x0201 {
        DataFormat::Voltage
    } else if high == 0x0202 {
        DataFormat::Current
    } else if 0x0203 <= high && high <= 0x0205 {
        DataFormat::Power
    } else if high == 0x0206 || high == 0x0207 {
        DataFormat::PowerFactor
    } else {
        DataFormat::Raw
    }
}

impl DataFormat {
    /// The format of a data identifier.
    pub fn from_data_id(di: &DataIdentifier) -> (f: DataFormat)
        ensures
            f == spec_format_of_code(spec_code_of_identifier(di@) as u32),
    {
        DataFormat::from_di_code(di.code())
    }

    /// The format of an identifier code, by its high 16 bits.
    pub fn from_di_code(di_code: u32) -> (f: DataFormat)
        ensures
            f == spec_format_of_code(di_code),
    {
        let high = di_code / 65536;
        if high == 0x0001 || high == 0x0002 {
            DataFormat::Energy
        } else if high == 0x0201 {
            DataFormat::Voltage
        } else if high == 0x0202 {
            DataFormat::Current
        } else if 0x0203 <= high && high <= 0x0205 {
            DataFormat::Power
        } else if high == 0x0206 || high == 0x0207 {
            DataFormat::PowerFactor
        } else {
            DataFormat::Raw
        }
    }
}

/// Value of a BCD byte, each nibble read as a decimal digit.
pub open spec fn spec_bcd(b: u8) -> u32 {
    ((b / 16) * 10 + b % 16) as u32
}

/// Convert a BCD byte to its value (each nibble is a decimal digit).
pub fn bcd_to_u32(bcd: u8) -> (v: u32)
    ensures
        v == spec_bcd(bcd),
{
    ((bcd / 16) * 10 + bcd % 16) as u32
}

/// A decoded meter reading: `integer + fraction / 10^fraction_digits`, negated when
/// `negative`.
#[derive(Debug, Clone, Copy, PartialEq, Eq)]
pub struct BcdReading {
    pub integer: u32,
    pub fraction: u32,
    pub fraction_digits: u32,
    pub negative: bool,
}

/// The reading that data bytes hold in a format, or the error for too few bytes.
pub open spec fn spec_reading(d: Seq<u8>, format: DataFormat) -> Result<BcdReading, Dl645CodecError> {
    match format {
        DataFormat::Energy => if d.len() < 4 {
            Err(Dl645CodecError::InsufficientData)
        } else {
            Ok(BcdReading {
                integer: (spec_bcd(d[1]) + spec_bcd(d[2]) * 100 + spec_bcd(d[3]) * 10000) as u32,
                fraction: spec_bcd(d[0]),
                fraction_digits: 2,
                negative: false,
            })
        },
        DataFormat::Voltage => if d.len() < 2 {
            Err(Dl645CodecError::InsufficientData)
        } else {
            Ok(BcdReading {
                integer: (d[0] / 16 + (d[1] % 16) * 10 + (d[1] / 16) * 100) as u32,
                fraction: (d[0] % 16) as u32,
                fraction_digits: 1,
                negative: false,
            })
        },
        DataFormat::Current => if d.len() < 3 {
            Err(Dl645CodecError::InsufficientData)
        } else {
            Ok(BcdReading {
                integer: (d[1] / 16 + (d[2] % 16) * 10 + (d[2] / 16) * 100) as u32,
                fraction: ((d[1] % 16) * 100 + (d[0] / 16) * 10 + d[0] % 16) as u32,
                fraction_digits: 3,
                negative: false,
            })
        },
        DataFormat::Power => if d.len() < 3 {
            Err(Dl645CodecError::InsufficientData)
        } else {
            Ok(BcdReading {
                integer: ((d[2] % 128) % 16 + ((d[2] % 128) / 16) * 10) as u32,
                fraction: ((d[1] / 16) * 1000 + (d[1] % 16) * 100 + (d[0] / 16) * 10 + d[0] % 16) as u32,
                fraction_digits: 4,
                negative: d[2] >= 128,
            })
        },
        DataFormat::PowerFactor => if d.len() < 2 {
            Err(Dl645CodecError::InsufficientData)
        } else {
            Ok(BcdReading {
                integer: ((d[1] % 128) / 16) as u32,
                fraction: (((d[1] % 128) % 16) * 100 + (d[0] / 16) * 10 + d[0] % 16) as u32,
                fraction_digits: 3,
                negative: d[1] >= 128,
            })
        },
        DataFormat::Raw => Ok(BcdReading {
            integer: if d.len() > 0 { d[0] as u32 } else { 0 },
            fraction: 0,
            fraction_digits: 0,
            negative: false,
        }),
    }
}

/// The decimal number that BCD nibbles write, the lowest nibble (the low nibble of
/// the first byte) being the units digit: `sum of nibble(k) * 10^k` over the first
/// `count` nibbles, nibble `2i` being `d[i] % 16` and nibble `2i + 1` being
/// `d[i] / 16`.
pub open spec fn spec_bcd_digits_value(d: Seq<u8>, count: nat) -> nat
    decreases count,
{
    if count == 0 {
        0
    } else {
        let k = (count - 1) as int;
        let nibble: nat = if k % 2 == 0 {
            (d[k / 2] % 16) as nat
        } else {
            (d[k / 2] / 16) as nat
        };
        spec_bcd_digits_value(d, (count - 1) as nat) + nibble * vstd::arithmetic::power::pow(10, (count - 1) as nat) as nat
    }
}

proof fn lemma_pow10_small()
    ensures
        vstd::arithmetic::power::pow(10, 0) == 1,
        vstd::arithmetic::power::pow(10, 1) == 10,
        vstd::arithmetic::power::pow(10, 2) == 100,
        vstd::arithmetic::power::pow(10, 3) == 1000,
        vstd::arithmetic::power::pow(10, 4) == 10000,
        vstd::arithmetic::power::pow(10, 5) == 100000,
        vstd::arithmetic::power::pow(10, 6) == 1000000,
        vstd::arithmetic::power::pow(10, 7) == 10000000,
{
    reveal_with_fuel(vstd::arithmetic::power::pow, 9);
}

/// The first eight BCD digits, written out.
proof fn lemma_digits_expand(d: Seq<u8>)
    ensures
        spec_bcd_digits_value(d, 1) == (d[0] % 16) as nat,
        spec_bcd_digits_value(d, 2) == spec_bcd_digits_value(d, 1) + (d[0] / 16) as nat * 10,
        spec_bcd_digits_value(d, 3) == spec_bcd_digits_value(d, 2) + (d[1] % 16) as nat * 100,
        spec_bcd_digits_value(d, 4) == spec_bcd_digits_value(d, 3) + (d[1] / 16) as nat * 1000,
        spec_bcd_digits_value(d, 5) == spec_bcd_digits_value(d, 4) + (d[2] % 16) as nat * 10000,
        spec_bcd_digits_value(d, 6) == spec_bcd_digits_value(d, 5) + (d[2] / 16) as nat * 100000,
        spec_bcd_digits_value(d, 7) == spec_bcd_digits_value(d, 6) + (d[3] % 16) as nat * 1000000,
        spec_bcd_digits_value(d, 8) == spec_bcd_digits_value(d, 7) + (d[3] / 16) as nat * 10000000,
{
    lemma_pow10_small();
    reveal_with_fuel(spec_bcd_digits_value, 2);
    assert(spec_bcd_digits_value(d, 0) == 0);
    assert(spec_bcd_digits_value(d, 1) == spec_bcd_digits_value(d, 0) + (d[0] % 16) as nat * 1);
    assert(spec_bcd_digits_value(d, 2) == spec_bcd_digits_value(d, 1) + (d[0] / 16) as nat * 10);
    assert(spec_bcd_digits_value(d, 3) == spec_bcd_digits_value(d, 2) + (d[1] % 16) as nat * 100);
    assert(spec_bcd_digits_value(d, 4) == spec_bcd_digits_value(d, 3) + (d[1] / 16) as nat * 1000);
    assert(spec_bcd_digits_value(d, 5) == spec_bcd_digits_value(d, 4) + (d[2] % 16) as nat * 10000);
    assert(spec_bcd_digits_value(d, 6) == spec_bcd_digits_value(d, 5) + (d[2] / 16) as nat * 100000);
    assert(spec_bcd_digits_value(d, 7) == spec_bcd_digits_value(d, 6) + (d[3] % 16) as nat * 1000000);
    assert(spec_bcd_digits_value(d, 8) == spec_bcd_digits_value(d, 7) + (d[3] / 16) as nat * 10000000);
}

/// A voltage reading (XXX.X V) is the number its four BCD digits write, in
/// tenths: `integer * 10 + fraction` is that number and `fraction` is its lowest
/// digit; fewer than two bytes are refused.
pub proof fn lemma_voltage_is_bcd_number(d: Seq<u8>)
    ensures
        d.len() < 2 <==> spec_reading(d, DataFormat::Voltage) is Err,
        d.len() >= 2 ==> {
            let r = spec_reading(d, DataFormat::Voltage)->Ok_0;
            &&& r.integer as nat * 10 + r.fraction as nat == spec_bcd_digits_value(d, 4)
            &&& r.fraction as nat == spec_bcd_digits_value(d, 1)
            &&& r.fraction_digits == 1
            &&& !r.negative
        },
{
    lemma_digits_expand(d);
}

/// An energy reading (XXXXXX.XX kWh) is the number its eight BCD digits write,
/// in hundredths; `fraction` is its lowest two digits. Fewer than four bytes are
/// refused.
pub proof fn lemma_energy_is_bcd_number(d: Seq<u8>)
    ensures
        d.len() < 4 <==> spec_reading(d, DataFormat::Energy) is Err,
        d.len() >= 4 ==> {
            let r = spec_reading(d, DataFormat::Energy)->Ok_0;
            &&& r.integer as nat * 100 + r.fraction as nat == spec_bcd_digits_value(d, 8)
            &&& r.fraction as nat == spec_bcd_digits_value(d, 2)
            &&& r.fraction_digits == 2
            &&& !r.negative
        },
{
    lemma_digits_expand(d);
}

/// A current reading (XXX.XXX A) is the number its six BCD digits write, in
/// thousandths; `fraction` is its lowest three digits. Fewer than three bytes are
/// refused.
pub proof fn lemma_current_is_bcd_number(d: Seq<u8>)
    ensures
        d.len() < 3 <==> spec_reading(d, DataFormat::Current) is Err,
        d.len() >= 3 ==> {
            let r = spec_reading(d, DataFormat::Current)->Ok_0;
            &&& r.integer as nat * 1000 + r.fraction as nat == spec_bcd_digits_value(d, 6)
            &&& r.fraction as nat == spec_bcd_digits_value(d, 3)
            &&& r.fraction_digits == 3
            &&& !r.negative
        },
{
    lemma_digits_expand(d);
}

/// A power reading (XX.XXXX kW) is negative when the top bit of its third byte
/// is set, and otherwise the number its six BCD digits write (that bit taken
/// out), in ten-thousandths; `fraction` is its lowest four digits. Fewer than
/// three bytes are refused.
pub proof fn lemma_power_is_bcd_number(d: Seq<u8>)
    ensures
        d.len() < 3 <==> spec_reading(d, DataFormat::Power) is Err,
        d.len() >= 3 ==> {
            let r = spec_reading(d, DataFormat::Power)->Ok_0;
            let plain = d.update(2, (d[2] % 128) as u8);
            &&& r.integer as nat * 10000 + r.fraction as nat == spec_bcd_digits_value(plain, 6)
            &&& r.fraction as nat == spec_bcd_digits_value(plain, 4)
            &&& r.fraction_digits == 4
            &&& r.negative == (d[2] >= 128)
        },
{
    if d.len() >= 3 {
        lemma_digits_expand(d.update(2, (d[2] % 128) as u8));
    }
}

/// A power factor reading (X.XXX) is negative when the top bit of its second
/// byte is set, and otherwise the number its four BCD digits write (that bit
/// taken out), in thousandths; `fraction` is its lowest three digits. Fewer than
/// two bytes are refused.
pub proof fn lemma_power_factor_is_bcd_number(d: Seq<u8>)
    ensures
        d.len() < 2 <==> spec_reading(d, DataFormat::PowerFactor) is Err,
        d.len() >= 2 ==> {
            let r = spec_reading(d, DataFormat::PowerFactor)->Ok_0;
            let plain = d.update(1, (d[1] % 128) as u8);
            &&& r.integer as nat * 1000 + r.fraction as nat == spec_bcd_digits_value(plain, 4)
            &&& r.fraction as nat == spec_bcd_digits_value(plain, 3)
            &&& r.fraction_digits == 3
            &&& r.negative == (d[1] >= 128)
        },
{
    if d.len() >= 2 {
        lemma_digits_expand(d.update(1, (d[1] % 128) as u8));
    }
}

/// Parse energy: XXXXXX.XX kWh from 4 BCD bytes, low byte first.
pub fn parse_energy(data: &[u8]) -> (r: Result<BcdReading, Dl645CodecError>)
    ensures
        r == spec_reading(data@, DataFormat::Energy),
{
    if data.len() < 4 {
        return Err(Dl645CodecError::InsufficientData);
    }
    let fraction = bcd_to_u32(data[0]);
    let integer = bcd_to_u32(data[1]) + bcd_to_u32(data[2]) * 100 + bcd_to_u32(data[3]) * 10000;
    Ok(BcdReading { integer, fraction, fraction_digits: 2, negative: false })
}

/// Parse voltage: XXX.X V from 2 BCD bytes.
pub fn parse_voltage(data: &[u8]) -> (r: Result<BcdReading, Dl645CodecError>)
    ensures
        r == spec_reading(data@, DataFormat::Voltage),
{
    if data.len() < 2 {
        return Err(Dl645CodecError::InsufficientData);
    }
    let fraction = bcd_to_u32(data[0] % 16);
    let integer = bcd_to_u32(data[0] / 16) + bcd_to_u32(data[1] % 16) * 10 + bcd_to_u32(data[1] / 16) * 100;
    Ok(BcdReading { integer, fraction, fraction_digits: 1, negative: false })
}

/// Parse current: XXX.XXX A from 3 BCD bytes.
pub fn parse_current(data: &[u8]) -> (r: Result<BcdReading, Dl645CodecError>)
    ensures
        r == spec_reading(data@, DataFormat::Current),
{
    if data.len() < 3 {
        return Err(Dl645CodecError::InsufficientData);
    }
    let d1 = bcd_to_u32(data[0] % 16);
    let d2 = bcd_to_u32(data[0] / 16);
    let d3 = bcd_to_u32(data[1] % 16);
    let integer = bcd_to_u32(data[1] / 16) + bcd_to_u32(data[2] % 16) * 10 + bcd_to_u32(data[2] / 16) * 100;
    let fraction = d3 * 100 + d2 * 10 + d1;
    Ok(BcdReading { integer, fraction, fraction_digits: 3, negative: false })
}

/// Parse power: XX.XXXX kW from 3 BCD bytes; the top bit of the last byte is the sign.
pub fn parse_power(data: &[u8]) -> (r: Result<BcdReading, Dl645CodecError>)
    ensures
        r == spec_reading(data@, DataFormat::Power),
{
    if data.len() < 3 {
        return Err(Dl645CodecError::InsufficientData);
    }
    let negative = data[2] >= 128;
    let last = data[2] % 128;
    let d1 = bcd_to_u32(data[0] % 16);
    let d2 = bcd_to_u32(data[0] / 16);
    let d3 = bcd_to_u32(data[1] % 16);
    let d4 = bcd_to_u32(data[1] / 16);
    let integer = bcd_to_u32(last % 16) + bcd_to_u32(last / 16) * 10;
    let fraction = d4 * 1000 + d3 * 100 + d2 * 10 + d1;
    Ok(BcdReading { integer, fraction, fraction_digits: 4, negative })
}

/// Parse power factor: X.XXX from 2 BCD bytes; the top bit of the last byte is the sign.
pub fn parse_power_factor(data: &[u8]) -> (r: Result<BcdReading, Dl645CodecError>)
    ensures
        r == spec_reading(data@, DataFormat::PowerFactor),
{
    if data.len() < 2 {
        return Err(Dl645CodecError::InsufficientData);
    }
    let negative = data[1] >= 128;
    let last = data[1] % 128;
    let d1 = bcd_to_u32(data[0] % 16);
    let d2 = bcd_to_u32(data[0] / 16);
    let d3 = bcd_to_u32(last % 16);
    let integer = bcd_to_u32(last / 16);
    let fraction = d3 * 100 + d2 * 10 + d1;
    Ok(BcdReading { integer, fraction, fraction_digits: 3, negative })
}

/// Parse data bytes in the given format.
pub fn parse_bcd_reading(data: &[u8], format: DataFormat) -> (r: Result<BcdReading, Dl645CodecError>)
    ensures
        r == spec_reading(data@, format),
{
    match format {
        DataFormat::Energy => parse_energy(data),
        DataFormat::Voltage => parse_voltage(data),
        DataFormat::Current => parse_current(data),
        DataFormat::Power => parse_power(data),
        DataFormat::PowerFactor => parse_power_factor(data),
        DataFormat::Raw => {
            let first: u32 = if data.len() > 0 { data[0] as u32 } else { 0 };
            Ok(BcdReading { integer: first, fraction: 0, fraction_digits: 0, negative: false })
        },
    }
}


/// The standard points: (identifier code, point id, format), in poll order.
pub open spec fn spec_standard_points() -> Seq<(u32, u32, DataFormat)> {
    seq![
        (0x0001_0000u32, 1u32, DataFormat::Energy),
        (0x0002_0000u32, 2u32, DataFormat::Energy),
        (0x0201_0100u32, 3u32, DataFormat::Voltage),
        (0x0201_0200u32, 4u32, DataFormat::Voltage),
        (0x0201_0300u32, 5u32, DataFormat::Voltage),
        (0x0202_0100u32, 6u32, DataFormat::Current),
        (0x0202_0200u32, 7u32, DataFormat::Current),
        (0x0202_0300u32, 8u32, DataFormat::Current),
        (0x0203_0000u32, 9u32, DataFormat::Power),
        (0x0204_0000u32, 10u32, DataFormat::Power),
        (0x0206_0000u32, 11u32, DataFormat::PowerFactor),
    ]
}

/// One standard data point: identifier code, fixed point id, name and format.
#[derive(Debug, Clone, Copy)]
pub struct StandardPoint {
    pub di_code: u32,
    pub point_id: u32,
    pub name: &'static str,
    pub format: DataFormat,
}

/// The eleven standard points that every poll reads, in order.
pub fn standard_points() -> (v: Vec<StandardPoint>)
    ensures
        v@.len() == spec_standard_points().len(),
        forall|i: int|
            0 <= i < v@.len() ==> ((#[trigger] v@[i]).di_code, v@[i].point_id, v@[i].format)
                == spec_standard_points()[i],
{
    let v = vec![
        StandardPoint { di_code: 0x0001_0000, point_id: 1, name: "Total positive active energy", format: DataFormat::Energy },
        StandardPoint { di_code: 0x0002_0000, point_id: 2, name: "Total reverse active energy", format: DataFormat::Energy },
        StandardPoint { di_code: 0x0201_0100, point_id: 3, name: "Phase A voltage", format: DataFormat::Voltage },
        StandardPoint { di_code: 0x0201_0200, point_id: 4, name: "Phase B voltage", format: DataFormat::Voltage },
        StandardPoint { di_code: 0x0201_0300, point_id: 5, name: "Phase C voltage", format: DataFormat::Voltage },
        StandardPoint { di_code: 0x0202_0100, point_id: 6, name: "Phase A current", format: DataFormat::Current },
        StandardPoint { di_code: 0x0202_0200, point_id: 7, name: "Phase B current", format: DataFormat::Current },
        StandardPoint { di_code: 0x0202_0300, point_id: 8, name: "Phase C current", format: DataFormat::Current },
        StandardPoint { di_code: 0x0203_0000, point_id: 9, name: "Total active power", format: DataFormat::Power },
        StandardPoint { di_code: 0x0204_0000, point_id: 10, name: "Total reactive power", format: DataFormat::Power },
        StandardPoint { di_code: 0x0206_0000, point_id: 11, name: "Total power factor", format: DataFormat::PowerFactor },
    ];
    v
}

/// The standard points have distinct identifier codes and distinct point ids, and the
/// format of each is the one its identifier code selects.
pub proof fn lemma_standard_points_consistent()
    ensures
        forall|i: int, j: int|
            0 <= i < j < spec_standard_points().len() ==> spec_standard_points()[i].0
                != spec_standard_points()[j].0 && spec_standard_points()[i].1
                != spec_standard_points()[j].1,
        forall|i: int|
            0 <= i < spec_standard_points().len() ==> spec_format_of_code(
                spec_standard_points()[i].0,
            ) == spec_standard_points()[i].2,
{
}

/// A failure entry with the same message for every standard point, in order.
pub fn fail_all_standard_points(msg: &str) -> (v: Vec<PointFailure>)
    ensures
        v@.len() == spec_standard_points().len(),
        forall|i: int|
            0 <= i < v@.len() ==> (#[trigger] v@[i]).point_id == spec_standard_points()[i].1
                && v@[i].error@ == msg@,
{
    let pts = standard_points();
    let mut v: Vec<PointFailure> = Vec::with_capacity(pts.len());
    let mut i: usize = 0;
    while i < pts.len()
        invariant
            i <= pts@.len(),
            pts@.len() == spec_standard_points().len(),
            forall|k: int|
                0 <= k < pts@.len() ==> ((#[trigger] pts@[k]).di_code, pts@[k].point_id, pts@[k].format)
                    == spec_standard_points()[k],
            v@.len() == i,
            forall|k: int|
                0 <= k < i ==> (#[trigger] v@[k]).point_id == spec_standard_points()[k].1
                    && v@[k].error@ == msg@,
        decreases pts@.len() - i,
    {
        let f = PointFailure::with_error(pts[i].point_id, msg);
        v.push(f);
        i += 1;
    }
    v
}

/// Default TCP port of an RS485-to-TCP gateway.
pub fn default_port() -> (p: u16)
    ensures
        p == 8899,
{
    8899
}

/// Default serial baud rate.
pub fn default_baud_rate() -> (b: u32)
    ensures
        b == 2400,
{
    2400
}

/// Default serial data bits.
pub fn default_data_bits() -> (b: u8)
    ensures
        b == 8,
{
    8
}

/// Default serial stop bits.
pub fn default_stop_bits() -> (b: u8)
    ensures
        b == 1,
{
    1
}

/// Default serial parity: even, as the standard requires.
pub fn default_parity() -> (p: String)
    ensures
        p@ == seq!['e', 'v', 'e', 'n'],
{
    let mut p = String::new();
    push_char(&mut p, 'e');
    push_char(&mut p, 'v');
    push_char(&mut p, 'e');
    push_char(&mut p, 'n');
    assert(p@ =~= seq!['e', 'v', 'e', 'n']);
    p
}

/// Default connect timeout in milliseconds.
pub fn default_connect_timeout_ms() -> (t: u64)
    ensures
        t == 5000,
{
    5000
}

/// Default I/O timeout in milliseconds.
pub fn default_io_timeout_ms() -> (t: u64)
    ensures
        t == 3000,
{
    3000
}

/// Default number of retries.
pub fn default_retry_count() -> (c: u32)
    ensures
        c == 2,
{
    2
}

/// Default delay between frames in milliseconds.
pub fn default_frame_delay_ms() -> (t: u64)
    ensures
        t == 200,
{
    200
}

/// Channel parameters as configured.
#[derive(Debug, Clone)]
pub struct Dl645ChannelParamsConfig {
    /// Meter address (12 BCD digits)
    pub meter_address: String,
    /// TCP host address
    pub host: Option<String>,
    /// TCP port
    pub port: u16,
    /// Serial device path
    pub device: Option<String>,
    /// Serial baud rate
    pub baud_rate: u32,
    /// Data bits
    pub data_bits: u8,
    /// Stop bits
    pub stop_bits: u8,
    /// Parity: "none", "even", "odd"
    pub parity: String,
    /// Connection timeout in milliseconds
    pub connect_timeout_ms: u64,
    /// I/O timeout in milliseconds
    pub timeout_ms: u64,
    /// Number of retries on failure
    pub retry_count: u32,
    /// Delay between frames in milliseconds
    pub frame_delay_ms: u64,
}

/// Serial parity.
#[derive(Debug, Clone, Copy, PartialEq, Eq)]
pub enum SerialParity {
    NoParity,
    Even,
    Odd,
}

/// The line settings of a serial meter.
#[derive(Debug, Clone, Copy, PartialEq, Eq)]
pub struct SerialSettings {
    pub parity: SerialParity,
    /// 5 to 8.
    pub data_bits: u8,
    /// 1 or 2.
    pub stop_bits: u8,
}

/// Why serial settings were refused.
#[derive(Debug, Clone, PartialEq, Eq)]
pub enum SerialSettingsError {
    InvalidParity(String),
    InvalidDataBits(u8),
    InvalidStopBits(u8),
}

/// The parity a configured name stands for: exactly "none", "even" or "odd".
pub open spec fn spec_parity(s: Seq<char>) -> Option<SerialParity> {
    if s == seq!['n', 'o', 'n', 'e'] {
        Some(SerialParity::NoParity)
    } else if s == seq!['e', 'v', 'e', 'n'] {
        Some(SerialParity::Even)
    } else if s == seq!['o', 'd', 'd'] {
        Some(SerialParity::Odd)
    } else {
        None
    }
}

/// Check the configured parity, data bits and stop bits, in that order.
pub fn serial_settings(parity: &str, data_bits: u8, stop_bits: u8) -> (r: Result<SerialSettings, SerialSettingsError>)
    ensures
        match spec_parity(parity@) {
            None => r matches Err(SerialSettingsError::InvalidParity(p)) && p@ == parity@,
            Some(p) => if !(5 <= data_bits <= 8) {
                r == Err::<SerialSettings, SerialSettingsError>(SerialSettingsError::InvalidDataBits(data_bits))
            } else if !(stop_bits == 1 || stop_bits == 2) {
                r == Err::<SerialSettings, SerialSettingsError>(SerialSettingsError::InvalidStopBits(stop_bits))
            } else {
                r == Ok::<SerialSettings, SerialSettingsError>(SerialSettings { parity: p, data_bits, stop_bits })
            },
        },
{
    let cs = crate::text::chars_of(parity);
    let none: [char; 4] = ['n', 'o', 'n', 'e'];
    let even: [char; 4] = ['e', 'v', 'e', 'n'];
    let odd: [char; 3] = ['o', 'd', 'd'];
    assert(none@ =~= seq!['n', 'o', 'n', 'e']);
    assert(even@ =~= seq!['e', 'v', 'e', 'n']);
    assert(odd@ =~= seq!['o', 'd', 'd']);
    let p = if crate::text::same_chars(cs.as_slice(), none.as_slice()) {
        SerialParity::NoParity
    } else if crate::text::same_chars(cs.as_slice(), even.as_slice()) {
        SerialParity::Even
    } else if crate::text::same_chars(cs.as_slice(), odd.as_slice()) {
        SerialParity::Odd
    } else {
        return Err(SerialSettingsError::InvalidParity(crate::text::to_string(parity)));
    };
    if data_bits < 5 || data_bits > 8 {
        return Err(SerialSettingsError::InvalidDataBits(data_bits));
    }
    if stop_bits != 1 && stop_bits != 2 {
        return Err(SerialSettingsError::InvalidStopBits(stop_bits));
    }
    Ok(SerialSettings { parity: p, data_bits, stop_bits })
}

/// The largest frame read from a meter.
pub const MAX_FRAME_SIZE: usize = 256;

/// The first position at or after `i` that holds the frame start byte.
pub open spec fn spec_find_start(buf: Seq<u8>, i: int) -> Option<int>
    decreases buf.len() - i,
{
    if i >= buf.len() || i < 0 {
        None
    } else if buf[i] == FRAME_START {
        Some(i)
    } else {
        spec_find_start(buf, i + 1)
    }
}

/// Where a complete frame lies in the bytes received so far, as (start,
/// length): at least 14 bytes are in, the first start byte is followed by the
/// data length at offset 9, and the whole frame (header, data, checksum and end
/// byte) has arrived.
pub open spec fn spec_frame_span(buf: Seq<u8>) -> Option<(int, int)> {
    if buf.len() < 14 {
        None
    } else {
        match spec_find_start(buf, 0) {
            None => None,
            Some(start) => if buf.len() > start + 9 {
                let expected = 12 + buf[start + 9] as int;
                if buf.len() >= start + expected {
                    Some((start, expected))
                } else {
                    None
                }
            } else {
                None
            },
        }
    }
}

/// Where a complete frame lies in the bytes received so far, if one has arrived.
pub fn frame_span(buf: &[u8]) -> (r: Option<(usize, usize)>)
    ensures
        match spec_frame_span(buf@) {
            Some((s, n)) => r == Some((s as usize, n as usize)),
            None => r is None,
        },
{
    if buf.len() < 14 {
        return None;
    }
    let mut i: usize = 0;
    while i < buf.len()
        invariant
            i <= buf@.len(),
            spec_find_start(buf@, 0) == spec_find_start(buf@, i as int),
        ensures
            i <= buf@.len(),
            spec_find_start(buf@, 0) == (if i == buf@.len() {
                None
            } else {
                Some(i as int)
            }),
        decreases buf@.len() - i,
    {
        if buf[i] == FRAME_START {
            break;
        }
        i += 1;
    }
    if i == buf.len() {
        return None;
    }
    let start = i;
    if buf.len() - start > 9 {
        let expected: usize = 12 + buf[start + 9] as usize;
        if buf.len() - start >= expected {
            return Some((start, expected));
        }
    }
    None
}

/// Runtime channel configuration.
#[derive(Debug)]
pub struct Dl645ChannelConfig {
    pub meter_address: String,
    pub host: Option<String>,
    pub port: u16,
    pub device: Option<String>,
    pub baud_rate: u32,
    pub data_bits: u8,
    pub stop_bits: u8,
    pub parity: String,
    pub connect_timeout: Duration,
    pub io_timeout: Duration,
    pub retry_count: u32,
    pub frame_delay: Duration,
}

/// "host:port".
pub open spec fn spec_host_port(host: Seq<char>, port: u16) -> Seq<char> {
    host + seq![':'] + spec_decimal(port as nat)
}

impl Dl645ChannelParamsConfig {
    /// Whether the channel goes through TCP (a host is set).
    pub fn is_tcp(&self) -> (b: bool)
        ensures
            b == self.host.is_some(),
    {
        self.host.is_some()
    }

    /// "host:port" when a host is set.
    pub fn tcp_address(&self) -> (a: Option<String>)
        ensures
            match self.host {
                Some(h) => a matches Some(s) && s@ == spec_host_port(h@, self.port),
                None => a.is_none(),
            },
    {
        match &self.host {
            Some(h) => {
                let mut s = h.clone();
                push_char(&mut s, ':');
                push_decimal(&mut s, self.port as u64);
                Some(s)
            },
            None => None,
        }
    }

    /// The runtime configuration: the same values, timeouts as durations.
    pub fn to_channel_config(&self) -> (c: Dl645ChannelConfig)
        ensures
            c.meter_address == self.meter_address,
            c.host == self.host,
            c.port == self.port,
            c.device == self.device,
            c.baud_rate == self.baud_rate,
            c.data_bits == self.data_bits,
            c.stop_bits == self.stop_bits,
            c.parity == self.parity,
            c.connect_timeout == millis_duration(self.connect_timeout_ms),
            c.io_timeout == millis_duration(self.timeout_ms),
            c.retry_count == self.retry_count,
            c.frame_delay == millis_duration(self.frame_delay_ms),
    {
        Dl645ChannelConfig {
            meter_address: self.meter_address.clone(),
            host: clone_opt_string(&self.host),
            port: self.port,
            device: clone_opt_string(&self.device),
            baud_rate: self.baud_rate,
            data_bits: self.data_bits,
            stop_bits: self.stop_bits,
            parity: self.parity.clone(),
            connect_timeout: duration_from_millis(self.connect_timeout_ms),
            io_timeout: duration_from_millis(self.timeout_ms),
            retry_count: self.retry_count,
            frame_delay: duration_from_millis(self.frame_delay_ms),
        }
    }
}

/// How a channel reaches its meter, for log messages.
pub enum Endpoint {
    /// "host:port"
    Tcp(String),
    /// device path and baud rate
    Serial(String, u32),
    /// neither host nor device configured
    Unknown,
}

/// The endpoint that a channel configuration names: the TCP host first, else the serial
/// device.
pub fn endpoint_of(config: &Dl645ChannelConfig) -> (e: Endpoint)
    ensures
        match config.host {
            Some(h) => e matches Endpoint::Tcp(s) && s@ == spec_host_port(h@, config.port),
            None => match config.device {
                Some(d) => e matches Endpoint::Serial(s, b) && s@ == d@ && b == config.baud_rate,
                None => e is Unknown,
            },
        },
{
    match &config.host {
        Some(h) => {
            let mut s = h.clone();
            push_char(&mut s, ':');
            push_decimal(&mut s, config.port as u64);
            Endpoint::Tcp(s)
        },
        None => match &config.device {
            Some(d) => Endpoint::Serial(d.clone(), config.baud_rate),
            None => Endpoint::Unknown,
        },
    }
}

} // verus!
