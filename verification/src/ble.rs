//! BLE GATT: expansion of short UUIDs, and the little-endian encoding of point
//! values in characteristic bytes.
use vstd::prelude::*;
use crate::bytes::{
    lemma_le_roundtrip, lemma_pow2_bytes, read_le16, read_le32, read_le64, spec_le, spec_le_bytes,
    spec_signed, write_le,
};
use crate::point::{DataFormat, PointConfig};
use crate::address::ProtocolAddress;
use crate::text::{chars_of, slice_range, spec_trim, string_from_chars, trim_chars};
use crate::address::{has_hex_prefix, spec_has_hex_prefix};

verus! {

// ── UUIDs ──────────────────────────────────────────────────────────────────────

/// The 128-bit value that `uuid::Uuid::parse_str` reads from a text, or `None`
/// when it refuses the text.
pub uninterp spec fn uuid_parse(s: Seq<char>) -> Option<u128>;

/// `uuid::Uuid::parse_str`, its result taken as a 128-bit value (`Uuid::as_u128`).
/// The formats it accepts (simple, hyphenated, braced, URN) are not restated: the
/// result is named by `uuid_parse`, a function of the text alone.
#[verifier::external_body]
fn parse_uuid(s: &str) -> (r: Option<u128>)
    ensures
        r == uuid_parse(s@),
{
    match uuid::Uuid::parse_str(s) {
        Ok(u) => Some(u.as_u128()),
        Err(_) => None,
    }
}

/// Why a UUID text was refused.
#[derive(Debug, Clone, Copy, PartialEq, Eq)]
pub enum UuidError {
    /// A four-digit short UUID that does not parse.
    InvalidShortUuid,
    /// An eight-digit UUID that does not parse.
    Invalid32BitUuid,
    /// Neither a full UUID nor four or eight digits.
    InvalidUuidLength,
}

/// The tail of the Bluetooth base UUID: "-0000-1000-8000-00805f9b34fb".
pub open spec fn spec_base_uuid_tail() -> Seq<char> {
    seq![
        '-', '0', '0', '0', '0', '-', '1', '0', '0', '0', '-', '8', '0', '0', '0', '-', '0', '0',
        '8', '0', '5', 'f', '9', 'b', '3', '4', 'f', 'b',
    ]
}

/// The digits of a short UUID: the trimmed text without a "0x"/"0X" prefix.
pub open spec fn spec_short_digits(s: Seq<char>) -> Seq<char> {
    let t = spec_trim(s);
    if spec_has_hex_prefix(t) {
        t.skip(2)
    } else {
        t
    }
}

/// The number of bytes a character takes in UTF-8.
pub open spec fn spec_utf8_width(c: char) -> nat {
    if (c as u32) < 0x80 {
        1
    } else if (c as u32) < 0x800 {
        2
    } else if (c as u32) < 0x1_0000 {
        3
    } else {
        4
    }
}

/// The number of bytes a text takes in UTF-8 (what `str::len` gives).
pub open spec fn spec_utf8_len(s: Seq<char>) -> nat
    decreases s.len(),
{
    if s.len() == 0 {
        0
    } else {
        spec_utf8_len(s.drop_last()) + spec_utf8_width(s.last())
    }
}

proof fn lemma_utf8_len_grows(s: Seq<char>, i: int, k: int)
    requires
        0 <= i <= k <= s.len(),
    ensures
        spec_utf8_len(s.take(i)) <= spec_utf8_len(s.take(k)),
    decreases k - i,
{
    if i < k {
        lemma_utf8_len_grows(s, i, k - 1);
        assert(s.take(k).drop_last() =~= s.take(k - 1));
    }
}

/// The UTF-8 length of `cs`, or 9 when it is longer than 8 bytes.
fn utf8_len_upto9(cs: &[char]) -> (n: usize)
    ensures
        n == (if spec_utf8_len(cs@) > 8 {
            9
        } else {
            spec_utf8_len(cs@)
        }),
{
    let mut total: usize = 0;
    let mut i: usize = 0;
    while i < cs.len()
        invariant
            i <= cs@.len(),
            total <= 8,
            total == spec_utf8_len(cs@.take(i as int)),
        decreases cs@.len() - i,
    {
        let c = cs[i];
        let w: usize = if (c as u32) < 0x80 {
            1
        } else if (c as u32) < 0x800 {
            2
        } else if (c as u32) < 0x1_0000 {
            3
        } else {
            4
        };
        assert(cs@.take(i + 1).drop_last() =~= cs@.take(i as int));
        if total + w > 8 {
            proof {
                lemma_utf8_len_grows(cs@, i + 1, cs@.len() as int);
                assert(cs@.take(cs@.len() as int) =~= cs@);
            }
            return 9;
        }
        total = total + w;
        i += 1;
    }
    assert(cs@.take(cs@.len() as int) =~= cs@);
    total
}

/// The full UUID text for a 16-bit ("0000XXXX-...") or 32-bit ("XXXXXXXX-...")
/// UUID on the Bluetooth base, or the error for any other length; the length
/// of the digits is counted in UTF-8 bytes.
pub open spec fn spec_short_uuid_text(s: Seq<char>) -> Result<Seq<char>, UuidError> {
    let hex = spec_short_digits(s);
    if spec_utf8_len(hex) == 4 {
        Ok(seq!['0', '0', '0', '0'] + hex + spec_base_uuid_tail())
    } else if spec_utf8_len(hex) == 8 {
        Ok(hex + spec_base_uuid_tail())
    } else {
        Err(UuidError::InvalidUuidLength)
    }
}

/// The full UUID text that a short UUID stands for.
pub fn short_uuid_text(s: &str) -> (r: Result<String, UuidError>)
    ensures
        match spec_short_uuid_text(s@) {
            Ok(t) => r matches Ok(x) && x@ == t,
            Err(e) => r == Err::<String, UuidError>(e),
        },
{
    let cs = chars_of(s);
    let t = trim_chars(cs.as_slice());
    let start: usize = if has_hex_prefix(t.as_slice()) { 2 } else { 0 };
    let hex = slice_range(t.as_slice(), start, t.len());
    assert(hex@ =~= spec_short_digits(s@));
    let tail: [char; 28] = [
        '-', '0', '0', '0', '0', '-', '1', '0', '0', '0', '-', '8', '0', '0', '0', '-', '0', '0',
        '8', '0', '5', 'f', '9', 'b', '3', '4', 'f', 'b',
    ];
    assert(tail@ =~= spec_base_uuid_tail());
    let bytes = utf8_len_upto9(hex.as_slice());
    let mut full: Vec<char> = Vec::new();
    if bytes == 4 {
        full.push('0');
        full.push('0');
        full.push('0');
        full.push('0');
    } else if bytes != 8 {
        return Err(UuidError::InvalidUuidLength);
    }
    let ghost pre = full@;
    let mut i: usize = 0;
    while i < hex.len()
        invariant
            i <= hex@.len(),
            full@ == pre + hex@.take(i as int),
        decreases hex@.len() - i,
    {
        full.push(hex[i]);
        i += 1;
        assert(full@ =~= pre + hex@.take(i as int));
    }
    let ghost mid = full@;
    let mut j: usize = 0;
    while j < 28
        invariant
            j <= 28,
            tail@.len() == 28,
            full@ == mid + tail@.take(j as int),
        decreases 28 - j,
    {
        full.push(tail[j]);
        j += 1;
        assert(full@ =~= mid + tail@.take(j as int));
    }
    assert(hex@.take(hex@.len() as int) =~= hex@);
    assert(tail@.take(28) =~= tail@);
    proof {
        if bytes == 4 {
            assert(full@ =~= seq!['0', '0', '0', '0'] + hex@ + spec_base_uuid_tail());
        } else {
            assert(full@ =~= hex@ + spec_base_uuid_tail());
        }
    }
    Ok(string_from_chars(full.as_slice()))
}

/// A UUID from its text: a full UUID as `uuid` reads it, else a 16-bit or 32-bit
/// UUID (optionally "0x"-prefixed) expanded on the Bluetooth base UUID.
pub open spec fn spec_expand_uuid(s: Seq<char>) -> Result<u128, UuidError> {
    match uuid_parse(spec_trim(s)) {
        Some(u) => Ok(u),
        None => match spec_short_uuid_text(s) {
            Err(e) => Err(e),
            Ok(full) => match uuid_parse(full) {
                Some(u) => Ok(u),
                None => if spec_utf8_len(spec_short_digits(s)) == 4 {
                    Err(UuidError::InvalidShortUuid)
                } else {
                    Err(UuidError::Invalid32BitUuid)
                },
            },
        },
    }
}

/// Expand a BLE UUID text ("180f", "0x180F", "0000180f" or a full UUID) to its
/// 128-bit value.
pub fn expand_uuid(s: &str) -> (r: Result<u128, UuidError>)
    ensures
        r == spec_expand_uuid(s@),
{
    let cs = chars_of(s);
    let trimmed = string_from_chars(trim_chars(cs.as_slice()).as_slice());
    if let Some(u) = parse_uuid(trimmed.as_str()) {
        return Ok(u);
    }
    let full = short_uuid_text(s)?;
    match parse_uuid(full.as_str()) {
        Some(u) => Ok(u),
        None => {
            let t = trim_chars(cs.as_slice());
            let start: usize = if has_hex_prefix(t.as_slice()) { 2 } else { 0 };
            let hex = slice_range(t.as_slice(), start, t.len());
            assert(hex@ =~= spec_short_digits(s@));
            if utf8_len_upto9(hex.as_slice()) == 4 {
                Err(UuidError::InvalidShortUuid)
            } else {
                Err(UuidError::Invalid32BitUuid)
            }
        },
    }
}

// ── Values ─────────────────────────────────────────────────────────────────────

/// A value as a characteristic holds it: a flag, an integer, or the bits of an
/// IEEE-754 single or double.
#[derive(Debug, Clone, Copy, PartialEq, Eq)]
pub enum BleReading {
    Bool(bool),
    Unsigned(u64),
    Signed(i64),
    Float32Bits(u32),
    Float64Bits(u64),
}

/// The number of bytes a format occupies (the String format has no fixed size).
pub open spec fn spec_width(f: DataFormat) -> nat {
    match f {
        DataFormat::Bool => 1,
        DataFormat::UInt16 => 2,
        DataFormat::Int16 => 2,
        DataFormat::UInt32 => 4,
        DataFormat::Int32 => 4,
        DataFormat::Float32 => 4,
        DataFormat::Float64 => 8,
        DataFormat::UInt64 => 8,
        DataFormat::Int64 => 8,
        DataFormat::String => 0,
    }
}

/// The reading that characteristic bytes hold in a format, read little-endian
/// from the first bytes; `None` when there are too few bytes, and for the String
/// format.
pub open spec fn spec_parse_value(data: Seq<u8>, f: DataFormat) -> Option<BleReading> {
    if f == DataFormat::String || data.len() < spec_width(f) {
        None
    } else {
        match f {
            DataFormat::Bool => Some(BleReading::Bool(data[0] != 0)),
            DataFormat::UInt16 => Some(BleReading::Unsigned(spec_le(data, 2) as u64)),
            DataFormat::Int16 => Some(BleReading::Signed(spec_signed(spec_le(data, 2), 16) as i64)),
            DataFormat::UInt32 => Some(BleReading::Unsigned(spec_le(data, 4) as u64)),
            DataFormat::Int32 => Some(BleReading::Signed(spec_signed(spec_le(data, 4), 32) as i64)),
            DataFormat::Float32 => Some(BleReading::Float32Bits(spec_le(data, 4) as u32)),
            DataFormat::Float64 => Some(BleReading::Float64Bits(spec_le(data, 8) as u64)),
            DataFormat::UInt64 => Some(BleReading::Unsigned(spec_le(data, 8) as u64)),
            DataFormat::Int64 => Some(BleReading::Signed(spec_signed(spec_le(data, 8), 64) as i64)),
            DataFormat::String => None,
        }
    }
}

/// Characteristic bytes are little-endian: the first byte is the lowest. A
/// 16-bit value is `d[0] + 256 * d[1]`, a 32-bit one `d[0] + 2^8 d[1] + 2^16 d[2]
/// + 2^24 d[3]`, a 64-bit one the same over eight bytes; a signed value is that
/// number less 2^bits when its top bit is set; a flag is a non-zero first byte.
/// Too few bytes (and strings) read as nothing.
pub proof fn lemma_parse_value_little_endian(d: Seq<u8>)
    ensures
        d.len() < 1 <==> spec_parse_value(d, DataFormat::Bool) is None,
        d.len() < 2 <==> spec_parse_value(d, DataFormat::UInt16) is None,
        d.len() < 4 <==> spec_parse_value(d, DataFormat::UInt32) is None,
        d.len() < 8 <==> spec_parse_value(d, DataFormat::UInt64) is None,
        spec_parse_value(d, DataFormat::String) is None,
        d.len() >= 1 ==> spec_parse_value(d, DataFormat::Bool) == Some(BleReading::Bool(d[0] != 0)),
        d.len() >= 2 ==> {
            let u = d[0] as int + 256 * d[1] as int;
            &&& spec_parse_value(d, DataFormat::UInt16) == Some(BleReading::Unsigned(u as u64))
            &&& spec_parse_value(d, DataFormat::Int16) == Some(
                BleReading::Signed((if u >= 0x8000 { u - 0x1_0000 } else { u }) as i64),
            )
        },
        d.len() >= 4 ==> {
            let u = d[0] as int + 0x100 * d[1] as int + 0x1_0000 * d[2] as int + 0x100_0000 * d[3] as int;
            &&& spec_parse_value(d, DataFormat::UInt32) == Some(BleReading::Unsigned(u as u64))
            &&& spec_parse_value(d, DataFormat::Int32) == Some(
                BleReading::Signed((if u >= 0x8000_0000 { u - 0x1_0000_0000 } else { u }) as i64),
            )
            &&& spec_parse_value(d, DataFormat::Float32) == Some(BleReading::Float32Bits(u as u32))
        },
        d.len() >= 8 ==> {
            let u = d[0] as int + 0x100 * d[1] as int + 0x1_0000 * d[2] as int + 0x100_0000 * d[3] as int
                + 0x1_0000_0000 * d[4] as int + 0x100_0000_0000 * d[5] as int + 0x1_0000_0000_0000
                * d[6] as int + 0x100_0000_0000_0000 * d[7] as int;
            &&& spec_parse_value(d, DataFormat::UInt64) == Some(BleReading::Unsigned(u as u64))
            &&& spec_parse_value(d, DataFormat::Float64) == Some(BleReading::Float64Bits(u as u64))
            &&& spec_parse_value(d, DataFormat::Int64) == Some(
                BleReading::Signed((if u >= 0x8000_0000_0000_0000 { u - 0x1_0000_0000_0000_0000 } else { u }) as i64),
            )
        },
{
    lemma_pow2_bytes();
    reveal_with_fuel(spec_le, 9);
    if d.len() >= 2 {
        assert(d.drop_first()[0] == d[1]);
    }
    if d.len() >= 8 {
        let t1 = d.drop_first();
        let t2 = t1.drop_first();
        let t3 = t2.drop_first();
        let t4 = t3.drop_first();
        let t5 = t4.drop_first();
        let t6 = t5.drop_first();
        let t7 = t6.drop_first();
        assert(spec_le(t7, 1) == d[7] as nat);
        assert(spec_le(t6, 2) == d[6] + 0x100 * d[7] as nat);
        assert(spec_le(t5, 3) == d[5] + 0x100 * (d[6] + 0x100 * d[7] as nat));
        assert(spec_le(t4, 4) == d[4] + 0x100 * spec_le(t5, 3));
        assert(spec_le(t3, 5) == d[3] + 0x100 * spec_le(t4, 4));
        assert(spec_le(t2, 6) == d[2] + 0x100 * spec_le(t3, 5));
        assert(spec_le(t1, 7) == d[1] + 0x100 * spec_le(t2, 6));
        assert(spec_le(d, 8) == d[0] + 0x100 * spec_le(t1, 7));
    }
}

/// Read a value from characteristic bytes.
pub fn parse_value(data: &[u8], format: DataFormat) -> (r: Option<BleReading>)
    ensures
        r == spec_parse_value(data@, format),
{
    proof {
        lemma_pow2_bytes();
    }
    match format {
        DataFormat::Bool => {
            if data.len() >= 1 {
                Some(BleReading::Bool(data[0] != 0))
            } else {
                None
            }
        },
        DataFormat::UInt16 => {
            if data.len() >= 2 {
                Some(BleReading::Unsigned(read_le16(data) as u64))
            } else {
                None
            }
        },
        DataFormat::Int16 => {
            if data.len() >= 2 {
                let v = read_le16(data) as i64;
                Some(BleReading::Signed(if v >= 0x8000 { v - 0x1_0000 } else { v }))
            } else {
                None
            }
        },
        DataFormat::UInt32 => {
            if data.len() >= 4 {
                Some(BleReading::Unsigned(read_le32(data)))
            } else {
                None
            }
        },
        DataFormat::Int32 => {
            if data.len() >= 4 {
                let v = read_le32(data) as i64;
                Some(BleReading::Signed(if v >= 0x8000_0000 { v - 0x1_0000_0000 } else { v }))
            } else {
                None
            }
        },
        DataFormat::Float32 => {
            if data.len() >= 4 {
                Some(BleReading::Float32Bits(read_le32(data) as u32))
            } else {
                None
            }
        },
        DataFormat::Float64 => {
            if data.len() >= 8 {
                Some(BleReading::Float64Bits(read_le64(data)))
            } else {
                None
            }
        },
        DataFormat::UInt64 => {
            if data.len() >= 8 {
                Some(BleReading::Unsigned(read_le64(data)))
            } else {
                None
            }
        },
        DataFormat::Int64 => {
            if data.len() >= 8 {
                let v = read_le64(data);
                let s: i64 = if v >= 0x8000_0000_0000_0000 {
                    (v as i128 - 0x1_0000_0000_0000_0000i128) as i64
                } else {
                    v as i64
                };
                Some(BleReading::Signed(s))
            } else {
                None
            }
        },
        DataFormat::String => None,
    }
}

/// The integer a reading stands for when written in an integer format: a flag as
/// 1 or 0, a float by its bits.
pub open spec fn spec_reading_int(r: BleReading) -> int {
    match r {
        BleReading::Bool(b) => if b {
            1
        } else {
            0
        },
        BleReading::Unsigned(u) => u as int,
        BleReading::Signed(i) => i as int,
        BleReading::Float32Bits(b) => b as int,
        BleReading::Float64Bits(b) => b as int,
    }
}

/// Whether a reading is non-zero.
pub open spec fn spec_reading_truthy(r: BleReading) -> bool {
    spec_reading_int(r) != 0
}

/// The bytes written for a reading in a format: a flag byte for Bool, otherwise
/// the reading's integer in two's complement over the format's width, low byte
/// first; `None` for the String format, whose text the caller supplies.
pub open spec fn spec_encode_value(r: BleReading, f: DataFormat) -> Option<Seq<u8>> {
    if f == DataFormat::String {
        None
    } else if f == DataFormat::Bool {
        Some(seq![if spec_reading_truthy(r) { 1u8 } else { 0u8 }])
    } else {
        let w = spec_width(f);
        let m = vstd::arithmetic::power::pow(256, w);
        Some(spec_le_bytes((spec_reading_int(r) % m) as nat, w))
    }
}

proof fn lemma_pow256()
    ensures
        vstd::arithmetic::power::pow(256, 1) == 0x100,
        vstd::arithmetic::power::pow(256, 2) == 0x1_0000,
        vstd::arithmetic::power::pow(256, 4) == 0x1_0000_0000,
        vstd::arithmetic::power::pow(256, 8) == 0x1_0000_0000_0000_0000,
{
    reveal_with_fuel(vstd::arithmetic::power::pow, 9);
}

/// `x` modulo `m` (a power of two dividing 2^64), as a non-negative value.
fn wrap_to(x: i128, m: u128) -> (r: u64)
    requires
        -0x8000_0000_0000_0000 <= x < 0x1_0000_0000_0000_0000,
        m == 0x1_0000 || m == 0x1_0000_0000 || m == 0x1_0000_0000_0000_0000,
    ensures
        r as int == (x as int) % (m as int),
        (r as int) < m,
{
    let y: u128 = (x + 0x1_0000_0000_0000_0000i128) as u128;
    proof {
        let k: int = 0x1_0000_0000_0000_0000int / (m as int);
        assert(0x1_0000_0000_0000_0000int == (m as int) * k);
        vstd::arithmetic::div_mod::lemma_mod_multiples_vanish(k, x as int, m as int);
    }
    (y % m) as u64
}

/// Encode a reading for a characteristic write.
pub fn encode_value(value: BleReading, format: DataFormat) -> (r: Option<Vec<u8>>)
    ensures
        match spec_encode_value(value, format) {
            Some(b) => r matches Some(v) && v@ == b,
            None => r is None,
        },
{
    let wide: i128 = match value {
        BleReading::Bool(b) => if b {
            1
        } else {
            0
        },
        BleReading::Unsigned(u) => u as i128,
        BleReading::Signed(i) => i as i128,
        BleReading::Float32Bits(b) => b as i128,
        BleReading::Float64Bits(b) => b as i128,
    };
    assert(wide == spec_reading_int(value));
    proof {
        lemma_pow256();
    }
    match format {
        DataFormat::String => None,
        DataFormat::Bool => {
            let mut v: Vec<u8> = Vec::new();
            v.push(if wide != 0 { 1u8 } else { 0u8 });
            proof {
                assert(v@ =~= seq![if spec_reading_truthy(value) { 1u8 } else { 0u8 }]);
            }
            Some(v)
        },
        DataFormat::UInt16 | DataFormat::Int16 => Some(write_le(wrap_to(wide, 0x1_0000), 2)),
        DataFormat::UInt32 | DataFormat::Int32 | DataFormat::Float32 => Some(
            write_le(wrap_to(wide, 0x1_0000_0000), 4),
        ),
        DataFormat::UInt64 | DataFormat::Int64 | DataFormat::Float64 => Some(
            write_le(wrap_to(wide, 0x1_0000_0000_0000_0000), 8),
        ),
    }
}

/// Whether a reading is of the kind a format holds, and within its range.
pub open spec fn spec_fits(r: BleReading, f: DataFormat) -> bool {
    match (f, r) {
        (DataFormat::Bool, BleReading::Bool(_)) => true,
        (DataFormat::UInt16, BleReading::Unsigned(u)) => u < 0x1_0000,
        (DataFormat::Int16, BleReading::Signed(i)) => -0x8000 <= i < 0x8000,
        (DataFormat::UInt32, BleReading::Unsigned(u)) => u < 0x1_0000_0000,
        (DataFormat::Int32, BleReading::Signed(i)) => -0x8000_0000 <= i < 0x8000_0000,
        (DataFormat::Float32, BleReading::Float32Bits(_)) => true,
        (DataFormat::Float64, BleReading::Float64Bits(_)) => true,
        (DataFormat::UInt64, BleReading::Unsigned(_)) => true,
        (DataFormat::Int64, BleReading::Signed(_)) => true,
        _ => false,
    }
}

/// Writing a value in its format and reading the bytes back in that format gives
/// the value again.
pub proof fn lemma_encode_parse_roundtrip(r: BleReading, f: DataFormat)
    requires
        spec_fits(r, f),
    ensures
        spec_encode_value(r, f) matches Some(b) && spec_parse_value(b, f) == Some(r),
{
    lemma_pow256();
    lemma_pow2_bytes();
    if f != DataFormat::Bool {
        let w = spec_width(f);
        let m = vstd::arithmetic::power::pow(256, w);
        let x = spec_reading_int(r) % m;
        lemma_le_roundtrip(x as nat, w);
        let b = spec_le_bytes(x as nat, w);
        assert(spec_le(b, w) == x);
        match r {
            BleReading::Signed(i) => {
                if i < 0 {
                    vstd::arithmetic::div_mod::lemma_mod_add_multiples_vanish(i as int, m);
                    vstd::arithmetic::div_mod::lemma_small_mod((m + i) as nat, m as nat);
                } else {
                    vstd::arithmetic::div_mod::lemma_small_mod(i as nat, m as nat);
                }
            },
            BleReading::Unsigned(u) => {
                vstd::arithmetic::div_mod::lemma_small_mod(u as nat, m as nat);
            },
            BleReading::Float32Bits(u) => {
                vstd::arithmetic::div_mod::lemma_small_mod(u as nat, m as nat);
            },
            BleReading::Float64Bits(u) => {
                vstd::arithmetic::div_mod::lemma_small_mod(u as nat, m as nat);
            },
            BleReading::Bool(_) => {},
        }
    }
}


// ── Points ─────────────────────────────────────────────────────────────────────

/// A BLE point with its service and characteristic UUIDs expanded.
#[derive(Debug, Clone, Copy, PartialEq, Eq)]
pub struct ResolvedBlePoint {
    pub point_id: u32,
    pub service_uuid: u128,
    pub char_uuid: u128,
    pub data_format: DataFormat,
    pub notify: bool,
}

/// The BLE points among `points`, in order, with their UUIDs expanded; the
/// error of the first UUID that does not expand. Other points are skipped.
pub open spec fn spec_resolve_points(points: Seq<PointConfig>) -> Result<Seq<ResolvedBlePoint>, UuidError>
    decreases points.len(),
{
    if points.len() == 0 {
        Ok(Seq::empty())
    } else {
        match spec_resolve_points(points.drop_last()) {
            Err(e) => Err(e),
            Ok(prev) => {
                let p = points.last();
                match p.address {
                    ProtocolAddress::Ble(a) => match spec_expand_uuid(a.service_uuid@) {
                        Err(e) => Err(e),
                        Ok(s) => match spec_expand_uuid(a.characteristic_uuid@) {
                            Err(e) => Err(e),
                            Ok(c) => Ok(
                                prev.push(
                                    ResolvedBlePoint {
                                        point_id: p.id,
                                        service_uuid: s,
                                        char_uuid: c,
                                        data_format: a.data_format,
                                        notify: a.notify,
                                    },
                                ),
                            ),
                        },
                    },
                    _ => Ok(prev),
                }
            },
        }
    }
}

proof fn lemma_resolve_error_stays(points: Seq<PointConfig>, i: int)
    requires
        0 <= i <= points.len(),
        spec_resolve_points(points.take(i)) is Err,
    ensures
        spec_resolve_points(points) == spec_resolve_points(points.take(i)),
    decreases points.len() - i,
{
    if i < points.len() {
        assert(points.take(i + 1).drop_last() =~= points.take(i));
        lemma_resolve_error_stays(points, i + 1);
    } else {
        assert(points.take(i) =~= points);
    }
}

/// Expand the UUIDs of the BLE points of a channel.
pub fn resolve_points(points: &[PointConfig]) -> (r: Result<Vec<ResolvedBlePoint>, UuidError>)
    ensures
        match spec_resolve_points(points@) {
            Ok(v) => r matches Ok(x) && x@ == v,
            Err(e) => r == Err::<Vec<ResolvedBlePoint>, UuidError>(e),
        },
{
    let mut out: Vec<ResolvedBlePoint> = Vec::new();
    let mut i: usize = 0;
    while i < points.len()
        invariant
            i <= points@.len(),
            spec_resolve_points(points@.take(i as int)) == Ok::<Seq<ResolvedBlePoint>, UuidError>(out@),
        decreases points@.len() - i,
    {
        assert(points@.take(i + 1).drop_last() =~= points@.take(i as int));
        let p = &points[i];
        match &p.address {
            ProtocolAddress::Ble(a) => {
                let s = match expand_uuid(a.service_uuid.as_str()) {
                    Ok(s) => s,
                    Err(e) => {
                        proof {
                            lemma_resolve_error_stays(points@, i + 1);
                        }
                        return Err(e);
                    },
                };
                let c = match expand_uuid(a.characteristic_uuid.as_str()) {
                    Ok(c) => c,
                    Err(e) => {
                        proof {
                            lemma_resolve_error_stays(points@, i + 1);
                        }
                        return Err(e);
                    },
                };
                out.push(
                    ResolvedBlePoint {
                        point_id: p.id,
                        service_uuid: s,
                        char_uuid: c,
                        data_format: a.data_format,
                        notify: a.notify,
                    },
                );
            },
            _ => {},
        }
        i += 1;
    }
    assert(points@.take(points@.len() as int) =~= points@);
    Ok(out)
}

// ── Writes ─────────────────────────────────────────────────────────────────────

/// Why a value cannot be written to a point over BLE.
#[derive(Debug, Clone, Copy, PartialEq, Eq)]
pub enum BleWriteError {
    /// No point has this id.
    PointNotFound(u32),
    /// The point's address is not a BLE address.
    NotBle(u32),
    /// A UUID of the point's address does not expand.
    Uuid(UuidError),
}

/// Where a value written to a point goes: the point (by index), its
/// characteristic, and the format the value is encoded in.
#[derive(Debug, Clone, Copy, PartialEq, Eq)]
pub struct BleWriteTarget {
    pub point_index: usize,
    pub service_uuid: u128,
    pub char_uuid: u128,
    pub data_format: DataFormat,
}

/// The target of a write to the point at index `i`.
pub open spec fn spec_target_at(points: Seq<PointConfig>, i: int) -> Result<BleWriteTarget, BleWriteError> {
    match points[i].address {
        ProtocolAddress::Ble(a) => match spec_expand_uuid(a.service_uuid@) {
            Err(e) => Err(BleWriteError::Uuid(e)),
            Ok(s) => match spec_expand_uuid(a.characteristic_uuid@) {
                Err(e) => Err(BleWriteError::Uuid(e)),
                Ok(c) => Ok(
                    BleWriteTarget { point_index: i as usize, service_uuid: s, char_uuid: c, data_format: a.data_format },
                ),
            },
        },
        _ => Err(BleWriteError::NotBle(points[i].id)),
    }
}

/// The target of a write to the first point from index `i` on that has
/// `point_id`.
pub open spec fn spec_write_target_from(points: Seq<PointConfig>, point_id: u32, i: int) -> Result<
    BleWriteTarget,
    BleWriteError,
>
    decreases points.len() - i,
{
    if i >= points.len() || i < 0 {
        Err(BleWriteError::PointNotFound(point_id))
    } else if points[i].id == point_id {
        spec_target_at(points, i)
    } else {
        spec_write_target_from(points, point_id, i + 1)
    }
}

/// Where a value for `point_id` is written: the first point with that id must
/// have a BLE address whose UUIDs expand.
pub fn write_target(points: &[PointConfig], point_id: u32) -> (r: Result<BleWriteTarget, BleWriteError>)
    ensures
        r == spec_write_target_from(points@, point_id, 0),
{
    let mut i: usize = 0;
    while i < points.len()
        invariant
            i <= points@.len(),
            spec_write_target_from(points@, point_id, 0) == spec_write_target_from(points@, point_id, i as int),
        decreases points@.len() - i,
    {
        let p = &points[i];
        if p.id == point_id {
            return match &p.address {
                ProtocolAddress::Ble(a) => {
                    let s = match expand_uuid(a.service_uuid.as_str()) {
                        Ok(s) => s,
                        Err(e) => {
                            return Err(BleWriteError::Uuid(e));
                        },
                    };
                    let c = match expand_uuid(a.characteristic_uuid.as_str()) {
                        Ok(c) => c,
                        Err(e) => {
                            return Err(BleWriteError::Uuid(e));
                        },
                    };
                    Ok(BleWriteTarget { point_index: i, service_uuid: s, char_uuid: c, data_format: a.data_format })
                },
                _ => Err(BleWriteError::NotBle(point_id)),
            };
        }
        i += 1;
    }
    Err(BleWriteError::PointNotFound(point_id))
}

} // verus!
