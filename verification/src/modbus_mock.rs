//! A simulated Modbus TCP device for tests: its register and coil banks, the
//! exceptions it can be told to answer with, and the handling of each request
//! (FC01-FC06, FC0F, FC10). The connection loop that reads and writes frames is
//! the caller's.
use vstd::prelude::*;
use std::collections::HashMap;
use crate::bytes::push_all;

verus! {

broadcast use vstd::std_specs::hash::group_hash_axioms;

/// Modbus exception codes.
#[derive(Debug, Clone, Copy, PartialEq, Eq)]
pub enum ModbusException {
    IllegalFunction,
    IllegalDataAddress,
    IllegalDataValue,
    ServerDeviceBusy,
}

/// The code of each exception on the wire.
pub open spec fn spec_exception_code(e: ModbusException) -> u8 {
    match e {
        ModbusException::IllegalFunction => 0x01,
        ModbusException::IllegalDataAddress => 0x02,
        ModbusException::IllegalDataValue => 0x03,
        ModbusException::ServerDeviceBusy => 0x06,
    }
}

impl ModbusException {
    /// The code of this exception on the wire.
    pub fn code(&self) -> (c: u8)
        ensures
            c == spec_exception_code(*self),
    {
        match self {
            ModbusException::IllegalFunction => 0x01,
            ModbusException::IllegalDataAddress => 0x02,
            ModbusException::IllegalDataValue => 0x03,
            ModbusException::ServerDeviceBusy => 0x06,
        }
    }
}

/// An exception to answer with instead of serving requests.
#[derive(Debug, Clone, Copy, PartialEq, Eq)]
pub struct ErrorInjection {
    /// The function code it applies to (0: every function).
    pub function_code: u8,
    pub exception: ModbusException,
    /// How many more times to answer so (0: every time).
    pub count: u32,
}

// ── Frames ─────────────────────────────────────────────────────────────────────

/// Two bytes of `v`, high byte first.
pub open spec fn spec_be16(v: u16) -> Seq<u8> {
    seq![(v / 256) as u8, (v % 256) as u8]
}

/// Big-endian value of two bytes.
pub open spec fn spec_word(hi: u8, lo: u8) -> u16 {
    (hi as nat * 256 + lo as nat) as u16
}

/// A normal response: MBAP header (transaction id, protocol 0, length), unit id,
/// function code, the byte count when it is non-zero, and the data.
pub open spec fn spec_response(tid: u16, unit: u8, fc: u8, byte_count: u8, data: Seq<u8>) -> Seq<u8> {
    let body = if byte_count > 0 {
        seq![fc, byte_count] + data
    } else {
        seq![fc] + data
    };
    spec_be16(tid) + seq![0u8, 0u8] + spec_be16((1 + body.len()) as u16) + seq![unit] + body
}

/// An exception response: the function code with its high bit set, and the
/// exception code.
pub open spec fn spec_exception_response(tid: u16, unit: u8, fc: u8, e: ModbusException) -> Seq<u8> {
    spec_be16(tid) + seq![0u8, 0u8, 0u8, 3u8, unit, fc | 0x80, spec_exception_code(e)]
}

fn push_be16(v: &mut Vec<u8>, x: u16)
    ensures
        final(v)@ == old(v)@ + spec_be16(x),
{
    v.push((x / 256) as u8);
    v.push((x % 256) as u8);
    assert(v@ =~= old(v)@ + spec_be16(x));
}

fn build_response(tid: u16, unit: u8, fc: u8, byte_count: u8, data: &[u8]) -> (r: Vec<u8>)
    requires
        data@.len() <= 260,
    ensures
        r@ == spec_response(tid, unit, fc, byte_count, data@),
{
    let pdu_len: usize = if byte_count > 0 {
        2 + data.len()
    } else {
        1 + data.len()
    };
    let mut r: Vec<u8> = Vec::new();
    push_be16(&mut r, tid);
    r.push(0);
    r.push(0);
    push_be16(&mut r, (1 + pdu_len) as u16);
    r.push(unit);
    r.push(fc);
    if byte_count > 0 {
        r.push(byte_count);
    }
    push_all(&mut r, data);
    assert(r@ =~= spec_response(tid, unit, fc, byte_count, data@));
    r
}

/// The exception response for a request.
pub fn build_exception_response(tid: u16, unit: u8, fc: u8, exception: ModbusException) -> (r: Vec<u8>)
    ensures
        r@ == spec_exception_response(tid, unit, fc, exception),
{
    let mut r: Vec<u8> = Vec::new();
    push_be16(&mut r, tid);
    r.push(0);
    r.push(0);
    r.push(0);
    r.push(3);
    r.push(unit);
    r.push(fc | 0x80);
    r.push(exception.code());
    assert(r@ =~= spec_exception_response(tid, unit, fc, exception));
    r
}

/// The PDU length announced by an MBAP header (length minus the unit id), when
/// the request is to be read: protocol id 0 and a PDU of 1 to 253 bytes.
/// Other headers are skipped.
pub open spec fn spec_pdu_length(h: [u8; 7]) -> Option<usize> {
    let protocol = spec_word(h[2], h[3]);
    let length = spec_word(h[4], h[5]);
    let pdu = if length >= 1 {
        length - 1
    } else {
        0
    };
    if protocol != 0 || pdu == 0 || pdu > 253 {
        None
    } else {
        Some(pdu as usize)
    }
}

/// How many PDU bytes follow an MBAP header, or `None` when the request is to be
/// skipped.
pub fn pdu_length(header: &[u8; 7]) -> (r: Option<usize>)
    ensures
        r == spec_pdu_length(*header),
{
    let protocol: u16 = (header[2] as u16) * 256 + header[3] as u16;
    let length: u16 = (header[4] as u16) * 256 + header[5] as u16;
    let pdu: u16 = if length >= 1 { length - 1 } else { 0 };
    if protocol != 0 || pdu == 0 || pdu > 253 {
        None
    } else {
        Some(pdu as usize)
    }
}

// ── Bit packing ────────────────────────────────────────────────────────────────

/// A byte holding up to eight flags, the first in the lowest bit.
pub open spec fn spec_pack_byte(bits: Seq<bool>) -> nat
    decreases bits.len(),
{
    if bits.len() == 0 {
        0
    } else {
        (if bits[0] { 1nat } else { 0nat }) + 2 * spec_pack_byte(bits.drop_first())
    }
}

/// Flags packed eight to a byte, the first flag in the lowest bit of the first
/// byte; the last byte is padded with zeros.
pub open spec fn spec_pack_bits(bits: Seq<bool>) -> Seq<u8> {
    Seq::new(
        ((bits.len() + 7) / 8) as nat,
        |j: int|
            spec_pack_byte(
                bits.subrange(8 * j, if 8 * j + 8 <= bits.len() { 8 * j + 8 } else { bits.len() as int }),
            ) as u8,
    )
}

fn pack_byte(bits: &[bool], lo: usize, hi: usize) -> (b: u8)
    requires
        lo <= hi <= bits@.len(),
        hi - lo <= 8,
    ensures
        b as nat == spec_pack_byte(bits@.subrange(lo as int, hi as int)),
{
    let mut v: u32 = 0;
    let mut k: usize = hi;
    proof {
        vstd::arithmetic::power2::lemma2_to64();
    }
    while k > lo
        invariant
            lo <= k <= hi <= bits@.len(),
            hi - lo <= 8,
            v as nat == spec_pack_byte(bits@.subrange(k as int, hi as int)),
            v < vstd::arithmetic::power2::pow2((hi - k) as nat),
            vstd::arithmetic::power2::pow2(8) == 256,
        decreases k - lo,
    {
        assert(bits@.subrange(k - 1, hi as int).drop_first() =~= bits@.subrange(k as int, hi as int));
        proof {
            vstd::arithmetic::power2::lemma_pow2_unfold((hi - k + 1) as nat);
            vstd::arithmetic::power2::lemma_pow2_strictly_increases((hi - k) as nat, 8);
        }
        v = 2 * v + if bits[k - 1] { 1 } else { 0 };
        k -= 1;
    }
    proof {
        if hi - lo < 8 {
            vstd::arithmetic::power2::lemma_pow2_strictly_increases((hi - lo) as nat, 8);
        }
    }
    v as u8
}

fn pack_bits(bits: &[bool]) -> (r: Vec<u8>)
    ensures
        r@ == spec_pack_bits(bits@),
{
    let n = bits.len();
    let nbytes = n / 8 + if n % 8 == 0 { 0 } else { 1 };
    assert(nbytes == (n + 7) / 8);
    let mut r: Vec<u8> = Vec::with_capacity(nbytes);
    let mut j: usize = 0;
    while j < nbytes
        invariant
            n == bits@.len(),
            nbytes == (n + 7) / 8,
            j <= nbytes,
            r@.len() == j,
            forall|k: int| 0 <= k < j ==> r@[k] == spec_pack_bits(bits@)[k],
        decreases nbytes - j,
    {
        assert(8 * j < n) by (nonlinear_arith)
            requires
                j < nbytes,
                nbytes == (n + 7) / 8,
        ;
        let lo = 8 * j;
        let hi = if n - lo >= 8 { lo + 8 } else { n };
        r.push(pack_byte(bits, lo, hi));
        j += 1;
    }
    assert(r@ =~= spec_pack_bits(bits@));
    r
}

proof fn lemma_pack_byte_bound(s: Seq<bool>)
    ensures
        spec_pack_byte(s) < vstd::arithmetic::power2::pow2(s.len()),
    decreases s.len(),
{
    vstd::arithmetic::power2::lemma2_to64();
    if s.len() > 0 {
        lemma_pack_byte_bound(s.drop_first());
        vstd::arithmetic::power2::lemma_pow2_unfold(s.len());
    }
}

proof fn lemma_pack_byte_bit(s: Seq<bool>, k: int)
    requires
        0 <= k < s.len(),
    ensures
        (spec_pack_byte(s) / vstd::arithmetic::power2::pow2(k as nat)) % 2 == (if s[k] {
            1nat
        } else {
            0nat
        }),
    decreases k,
{
    let b0: int = if s[0] { 1 } else { 0 };
    let p: int = spec_pack_byte(s.drop_first()) as int;
    assert(spec_pack_byte(s) == b0 + 2 * p);
    vstd::arithmetic::power2::lemma2_to64();
    if k == 0 {
        assert((b0 + 2 * p) % 2 == b0) by (nonlinear_arith)
            requires
                0 <= b0 <= 1,
                p >= 0,
        ;
        assert(k as nat == 0nat);
        assert(vstd::arithmetic::power2::pow2(k as nat) == 1);
        let x = spec_pack_byte(s) as int;
        assert(x / 1 == x);
    } else {
        lemma_pack_byte_bit(s.drop_first(), k - 1);
        assert(s.drop_first()[k - 1] == s[k]);
        let d = vstd::arithmetic::power2::pow2((k - 1) as nat) as int;
        vstd::arithmetic::power2::lemma_pow2_unfold(k as nat);
        vstd::arithmetic::power2::lemma_pow2_pos((k - 1) as nat);
        vstd::arithmetic::div_mod::lemma_div_denominator(b0 + 2 * p, 2, d);
        assert((b0 + 2 * p) / 2 == p) by (nonlinear_arith)
            requires
                0 <= b0 <= 1,
                p >= 0,
        ;
        assert(vstd::arithmetic::power2::pow2(k as nat) as int == 2 * d);
        assert((b0 + 2 * p) / (2 * d) == p / d);
        assert(spec_pack_byte(s) / vstd::arithmetic::power2::pow2(k as nat) == p / d);
        assert(spec_pack_byte(s.drop_first()) / vstd::arithmetic::power2::pow2((k - 1) as nat) == p / d);
    }
}

proof fn lemma_pack_byte_padding(s: Seq<bool>, k: nat)
    requires
        s.len() <= k,
    ensures
        (spec_pack_byte(s) / vstd::arithmetic::power2::pow2(k)) % 2 == 0,
{
    lemma_pack_byte_bound(s);
    if s.len() < k {
        vstd::arithmetic::power2::lemma_pow2_strictly_increases(s.len(), k);
    }
    vstd::arithmetic::power2::lemma_pow2_pos(k);
    let x = spec_pack_byte(s) as int;
    let d = vstd::arithmetic::power2::pow2(k) as int;
    assert(x / d == 0) by (nonlinear_arith)
        requires
            0 <= x < d,
    ;
}

/// Packed flags, bit by bit: bit `i % 8` of byte `i / 8` is flag `i`, every bit
/// past the last flag is 0, and there are just enough bytes for the flags.
pub proof fn lemma_pack_bits_flags(bits: Seq<bool>, i: int)
    requires
        0 <= i,
    ensures
        spec_pack_bits(bits).len() == (bits.len() + 7) / 8,
        i < bits.len() ==> (spec_pack_bits(bits)[i / 8] as nat / vstd::arithmetic::power2::pow2(
            (i % 8) as nat,
        )) % 2 == (if bits[i] {
            1nat
        } else {
            0nat
        }),
        bits.len() <= i < 8 * spec_pack_bits(bits).len() ==> (spec_pack_bits(bits)[i / 8] as nat
            / vstd::arithmetic::power2::pow2((i % 8) as nat)) % 2 == 0,
{
    let n = bits.len() as int;
    let nb = (n + 7) / 8;
    if i < 8 * nb {
        let j = i / 8;
        assert(0 <= j < nb);
        let hi = if 8 * j + 8 <= n { 8 * j + 8 } else { n };
        if i < n {
            assert(8 * j <= i < hi);
        }
        let sub = bits.subrange(8 * j, if 8 * j + 8 <= n { 8 * j + 8 } else { n });
        lemma_pack_byte_bound(sub);
        vstd::arithmetic::power2::lemma2_to64();
        if sub.len() < 8 {
            vstd::arithmetic::power2::lemma_pow2_strictly_increases(sub.len(), 8);
        }
        assert(spec_pack_bits(bits)[j] as nat == spec_pack_byte(sub));
        if i < n {
            assert(sub[i % 8] == bits[i]);
            lemma_pack_byte_bit(sub, i % 8);
        } else {
            lemma_pack_byte_padding(sub, (i % 8) as nat);
        }
    }
}

// ── Device state ───────────────────────────────────────────────────────────────

/// The address `i` places after `start`, wrapping past 65535.
pub open spec fn spec_addr(start: u16, i: int) -> u16 {
    if start + i < 0x1_0000 {
        (start + i) as u16
    } else {
        (start + i - 0x1_0000) as u16
    }
}

/// How far `a` lies after `start`, wrapping past 65535.
pub open spec fn spec_offset(start: u16, a: u16) -> int {
    if a >= start {
        a - start
    } else {
        a + 0x1_0000 - start
    }
}

/// `m` with the `q` entries from `start` on set to `f(0)`, `f(1)`, ...
pub open spec fn spec_write_run<V>(m: Map<u16, V>, start: u16, q: int, f: spec_fn(int) -> V) -> Map<u16, V> {
    Map::new(
        |a: u16| m.contains_key(a) || spec_offset(start, a) < q,
        |a: u16|
            if spec_offset(start, a) < q {
                f(spec_offset(start, a))
            } else {
                m[a]
            },
    )
}

proof fn lemma_write_run_step<V>(m: Map<u16, V>, start: u16, i: int, f: spec_fn(int) -> V)
    requires
        0 <= i < 0x1_0000,
    ensures
        spec_write_run(m, start, i + 1, f) == spec_write_run(m, start, i, f).insert(spec_addr(start, i), f(i)),
        spec_offset(start, spec_addr(start, i)) == i,
{
    assert(spec_write_run(m, start, i + 1, f) =~= spec_write_run(m, start, i, f).insert(
        spec_addr(start, i),
        f(i),
    ));
}

proof fn lemma_write_run_empty<V>(m: Map<u16, V>, start: u16, f: spec_fn(int) -> V)
    ensures
        spec_write_run(m, start, 0, f) == m,
{
    assert(spec_write_run(m, start, 0, f) =~= m);
}

fn addr_after(start: u16, i: u16) -> (a: u16)
    ensures
        a == spec_addr(start, i as int),
{
    if (start as u32) + (i as u32) < 0x1_0000 {
        start + i
    } else {
        ((start as u32) + (i as u32) - 0x1_0000) as u16
    }
}

/// The register, coil and input banks of the simulated device, the exceptions
/// it is told to answer with, and how many requests it served.
#[derive(Debug)]
pub struct MockModbusState {
    pub holding_registers: HashMap<u16, u16>,
    pub input_registers: HashMap<u16, u16>,
    pub coils: HashMap<u16, bool>,
    pub discrete_inputs: HashMap<u16, bool>,
    pub error_injections: Vec<ErrorInjection>,
    pub request_count: u64,
}

/// The flags read from a bank: `q` flags from `start` on, absent ones off.
pub open spec fn spec_flags(m: Map<u16, bool>, start: u16, q: int) -> Seq<bool> {
    Seq::new(q as nat, |i: int| m.contains_key(spec_addr(start, i)) && m[spec_addr(start, i)])
}

/// The value of register `i` after `start` in a bank, absent ones 0.
pub open spec fn spec_reg(m: Map<u16, u16>, start: u16, i: int) -> u16 {
    if m.contains_key(spec_addr(start, i)) {
        m[spec_addr(start, i)]
    } else {
        0
    }
}

/// The bytes read from a register bank: `q` registers from `start` on, high
/// byte first, absent ones 0.
pub open spec fn spec_register_bytes(m: Map<u16, u16>, start: u16, q: int) -> Seq<u8> {
    Seq::new(
        (2 * q) as nat,
        |k: int|
            if k % 2 == 0 {
                (spec_reg(m, start, k / 2) / 256) as u8
            } else {
                (spec_reg(m, start, k / 2) % 256) as u8
            },
    )
}

/// The answer to a read of coils or discrete inputs (at most 2000).
pub open spec fn spec_read_flags(m: Map<u16, bool>, tid: u16, unit: u8, fc: u8, d: Seq<u8>) -> Seq<u8> {
    if d.len() < 4 {
        spec_exception_response(tid, unit, fc, ModbusException::IllegalDataValue)
    } else {
        let start = spec_word(d[0], d[1]);
        let q = spec_word(d[2], d[3]);
        if q == 0 || q > 2000 {
            spec_exception_response(tid, unit, fc, ModbusException::IllegalDataValue)
        } else {
            spec_response(tid, unit, fc, ((q + 7) / 8) as u8, spec_pack_bits(spec_flags(m, start, q as int)))
        }
    }
}

/// The answer to a read of holding or input registers (at most 125).
pub open spec fn spec_read_registers(m: Map<u16, u16>, tid: u16, unit: u8, fc: u8, d: Seq<u8>) -> Seq<u8> {
    if d.len() < 4 {
        spec_exception_response(tid, unit, fc, ModbusException::IllegalDataValue)
    } else {
        let start = spec_word(d[0], d[1]);
        let q = spec_word(d[2], d[3]);
        if q == 0 || q > 125 {
            spec_exception_response(tid, unit, fc, ModbusException::IllegalDataValue)
        } else {
            spec_response(tid, unit, fc, (2 * q) as u8, spec_register_bytes(m, start, q as int))
        }
    }
}

fn read_flags(m: &HashMap<u16, bool>, tid: u16, unit: u8, fc: u8, d: &[u8]) -> (r: Vec<u8>)
    ensures
        r@ == spec_read_flags(m@, tid, unit, fc, d@),
{
    if d.len() < 4 {
        return build_exception_response(tid, unit, fc, ModbusException::IllegalDataValue);
    }
    let start: u16 = (d[0] as u16) * 256 + d[1] as u16;
    let q: u16 = (d[2] as u16) * 256 + d[3] as u16;
    if q == 0 || q > 2000 {
        return build_exception_response(tid, unit, fc, ModbusException::IllegalDataValue);
    }
    let mut bits: Vec<bool> = Vec::with_capacity(q as usize);
    let mut i: u16 = 0;
    while i < q
        invariant
            i <= q <= 2000,
            bits@ == spec_flags(m@, start, i as int),
        decreases q - i,
    {
        let a = addr_after(start, i);
        let v = match m.get(&a) {
            Some(b) => *b,
            None => false,
        };
        bits.push(v);
        i += 1;
        assert(bits@ =~= spec_flags(m@, start, i as int));
    }
    let packed = pack_bits(bits.as_slice());
    build_response(tid, unit, fc, ((q + 7) / 8) as u8, packed.as_slice())
}

fn read_registers(m: &HashMap<u16, u16>, tid: u16, unit: u8, fc: u8, d: &[u8]) -> (r: Vec<u8>)
    ensures
        r@ == spec_read_registers(m@, tid, unit, fc, d@),
{
    if d.len() < 4 {
        return build_exception_response(tid, unit, fc, ModbusException::IllegalDataValue);
    }
    let start: u16 = (d[0] as u16) * 256 + d[1] as u16;
    let q: u16 = (d[2] as u16) * 256 + d[3] as u16;
    if q == 0 || q > 125 {
        return build_exception_response(tid, unit, fc, ModbusException::IllegalDataValue);
    }
    let mut out: Vec<u8> = Vec::with_capacity(2 * q as usize);
    let mut i: u16 = 0;
    while i < q
        invariant
            i <= q <= 125,
            out@ =~= spec_register_bytes(m@, start, i as int),
        decreases q - i,
    {
        let a = addr_after(start, i);
        let v: u16 = match m.get(&a) {
            Some(x) => *x,
            None => 0,
        };
        assert(v == spec_reg(m@, start, i as int));
        push_be16(&mut out, v);
        i += 1;
        assert(out@ =~= spec_register_bytes(m@, start, i as int));
    }
    build_response(tid, unit, fc, (2 * q) as u8, out.as_slice())
}

/// A read of coils or discrete inputs answers, for `q` flags from `start`
/// (1 ≤ q ≤ 2000), with the MBAP header, the function code, the byte count
/// `(q + 7) / 8` and that many data bytes, where bit `i % 8` of data byte `i / 8`
/// is the flag at address `start + i` (wrapping past 65535; an absent flag is
/// off), and the bits past the last flag are 0.
pub proof fn lemma_read_flags_bits(m: Map<u16, bool>, tid: u16, unit: u8, fc: u8, d: Seq<u8>, i: int)
    requires
        d.len() >= 4,
        1 <= d[2] as int * 256 + d[3] as int <= 2000,
        0 <= i < 8 * ((d[2] as int * 256 + d[3] as int + 7) / 8),
    ensures
        ({
            let start = d[0] as int * 256 + d[1] as int;
            let q = d[2] as int * 256 + d[3] as int;
            let r = spec_read_flags(m, tid, unit, fc, d);
            let a = ((start + i) % 0x1_0000) as u16;
            let bit = (r[9 + i / 8] as nat / vstd::arithmetic::power2::pow2((i % 8) as nat)) % 2;
            &&& r.len() == 9 + (q + 7) / 8
            &&& r[7] == fc
            &&& r[8] == (q + 7) / 8
            &&& i < q ==> bit == (if m.contains_key(a) && m[a] {
                1nat
            } else {
                0nat
            })
            &&& i >= q ==> bit == 0
        }),
{
    let start = spec_word(d[0], d[1]);
    let q = spec_word(d[2], d[3]);
    assert(start as int == d[0] as int * 256 + d[1] as int);
    assert(q as int == d[2] as int * 256 + d[3] as int);
    let flags = spec_flags(m, start, q as int);
    let data = spec_pack_bits(flags);
    lemma_pack_bits_flags(flags, i);
    let r = spec_read_flags(m, tid, unit, fc, d);
    assert(r == spec_response(tid, unit, fc, ((q + 7) / 8) as u8, data));
    assert(r[9 + i / 8] == data[i / 8]);
}

/// A read of holding or input registers answers, for `q` registers from `start`
/// (1 ≤ q ≤ 125), with the MBAP header, the function code, the byte count
/// `2 * q` and the registers high byte first: data bytes `2i` and `2i + 1` make
/// the register at address `start + i` (wrapping past 65535; an absent register
/// reads 0).
pub proof fn lemma_read_registers_words(m: Map<u16, u16>, tid: u16, unit: u8, fc: u8, d: Seq<u8>, i: int)
    requires
        d.len() >= 4,
        1 <= d[2] as int * 256 + d[3] as int <= 125,
        0 <= i < d[2] as int * 256 + d[3] as int,
    ensures
        ({
            let start = d[0] as int * 256 + d[1] as int;
            let q = d[2] as int * 256 + d[3] as int;
            let r = spec_read_registers(m, tid, unit, fc, d);
            let a = ((start + i) % 0x1_0000) as u16;
            &&& r.len() == 9 + 2 * q
            &&& r[7] == fc
            &&& r[8] == 2 * q
            &&& r[9 + 2 * i] as int * 256 + r[10 + 2 * i] as int == (if m.contains_key(a) {
                m[a] as int
            } else {
                0
            })
        }),
{
    let start = spec_word(d[0], d[1]);
    let q = spec_word(d[2], d[3]);
    assert(start as int == d[0] as int * 256 + d[1] as int);
    assert(q as int == d[2] as int * 256 + d[3] as int);
    let data = spec_register_bytes(m, start, q as int);
    let r = spec_read_registers(m, tid, unit, fc, d);
    assert(r == spec_response(tid, unit, fc, (2 * q) as u8, data));
    assert(r[9 + 2 * i] == data[2 * i]);
    assert(r[10 + 2 * i] == data[2 * i + 1]);
    let v = spec_reg(m, start, i);
    assert(spec_addr(start, i) == ((start + i) % 0x1_0000) as u16);
    assert((v / 256) as u8 as int * 256 + (v % 256) as u8 as int == v as int);
}

/// The flag at bit `i` of packed bytes (lowest bit first).
pub open spec fn spec_packed_flag(bytes: Seq<u8>, i: int) -> bool {
    (bytes[i / 8] >> ((i % 8) as u8)) & 1u8 == 1u8
}

/// The outcome of a request: the answer, and the banks afterwards.
pub struct Outcome {
    pub response: Seq<u8>,
    pub holding: Map<u16, u16>,
    pub coils: Map<u16, bool>,
}

/// Whether a Write Multiple Coils request names more coils than its data bytes
/// carry (the device cannot serve such a request).
pub open spec fn spec_coil_write_overruns(fc: u8, d: Seq<u8>) -> bool {
    &&& fc == 0x0F
    &&& d.len() >= 5
    &&& ({
        let q = spec_word(d[2], d[3]);
        let bc = d[4] as int;
        q != 0 && q <= 1968 && d.len() >= 5 + bc && (q - 1) / 8 >= bc
    })
}

/// Whether a Write Multiple Coils request names more coils than its data bytes
/// carry.
pub fn coil_write_overruns(function_code: u8, data: &[u8]) -> (b: bool)
    ensures
        b == spec_coil_write_overruns(function_code, data@),
{
    if function_code != 0x0F || data.len() < 5 {
        return false;
    }
    let q: u16 = (data[2] as u16) * 256 + data[3] as u16;
    let bc: usize = data[4] as usize;
    q != 0 && q <= 1968 && data.len() >= 5 + bc && ((q - 1) / 8) as usize >= bc
}

/// What the device does with a request of function `fc` carrying data `d`
/// (the PDU after the function code): reads answer from the banks; writes change
/// the holding registers or coils and answer with the request's address part
/// (FC0F, FC10) or echo it (FC05, FC06); malformed requests get
/// IllegalDataValue and unknown functions IllegalFunction.
pub open spec fn spec_process(
    st_holding: Map<u16, u16>,
    st_input: Map<u16, u16>,
    st_coils: Map<u16, bool>,
    st_discrete: Map<u16, bool>,
    tid: u16,
    unit: u8,
    fc: u8,
    d: Seq<u8>,
) -> Outcome {
    let exc = spec_exception_response(tid, unit, fc, ModbusException::IllegalDataValue);
    let same = Outcome { response: exc, holding: st_holding, coils: st_coils };
    if fc == 0x01 {
        Outcome { response: spec_read_flags(st_coils, tid, unit, fc, d), holding: st_holding, coils: st_coils }
    } else if fc == 0x02 {
        Outcome {
            response: spec_read_flags(st_discrete, tid, unit, fc, d),
            holding: st_holding,
            coils: st_coils,
        }
    } else if fc == 0x03 {
        Outcome {
            response: spec_read_registers(st_holding, tid, unit, fc, d),
            holding: st_holding,
            coils: st_coils,
        }
    } else if fc == 0x04 {
        Outcome {
            response: spec_read_registers(st_input, tid, unit, fc, d),
            holding: st_holding,
            coils: st_coils,
        }
    } else if fc == 0x05 {
        if d.len() < 4 {
            same
        } else {
            let v = spec_word(d[2], d[3]);
            if v == 0 || v == 0xFF00 {
                Outcome {
                    response: spec_response(tid, unit, fc, 0, d),
                    holding: st_holding,
                    coils: st_coils.insert(spec_word(d[0], d[1]), v == 0xFF00),
                }
            } else {
                same
            }
        }
    } else if fc == 0x06 {
        if d.len() < 4 {
            same
        } else {
            Outcome {
                response: spec_response(tid, unit, fc, 0, d),
                holding: st_holding.insert(spec_word(d[0], d[1]), spec_word(d[2], d[3])),
                coils: st_coils,
            }
        }
    } else if fc == 0x0F {
        if d.len() < 5 {
            same
        } else {
            let start = spec_word(d[0], d[1]);
            let q = spec_word(d[2], d[3]);
            let bc = d[4] as int;
            if q == 0 || q > 1968 || d.len() < 5 + bc {
                same
            } else {
                let bytes = d.subrange(5, 5 + bc);
                Outcome {
                    response: spec_response(tid, unit, fc, 0, d.take(4)),
                    holding: st_holding,
                    coils: spec_write_run(st_coils, start, q as int, |i: int| spec_packed_flag(bytes, i)),
                }
            }
        }
    } else if fc == 0x10 {
        if d.len() < 5 {
            same
        } else {
            let start = spec_word(d[0], d[1]);
            let q = spec_word(d[2], d[3]);
            let bc = d[4] as int;
            if q == 0 || q > 123 || bc != 2 * q || d.len() < 5 + bc {
                same
            } else {
                Outcome {
                    response: spec_response(tid, unit, fc, 0, d.take(4)),
                    holding: spec_write_run(
                        st_holding,
                        start,
                        q as int,
                        |i: int| spec_word(d[5 + 2 * i], d[6 + 2 * i]),
                    ),
                    coils: st_coils,
                }
            }
        }
    } else {
        Outcome {
            response: spec_exception_response(tid, unit, fc, ModbusException::IllegalFunction),
            holding: st_holding,
            coils: st_coils,
        }
    }
}

/// The first injected exception that applies to function `fc`.
pub open spec fn spec_injection_index(inj: Seq<ErrorInjection>, fc: u8) -> Option<int>
    decreases inj.len(),
{
    if inj.len() == 0 {
        None
    } else {
        match spec_injection_index(inj.drop_last(), fc) {
            Some(k) => Some(k),
            None => if inj.last().function_code == 0 || inj.last().function_code == fc {
                Some(inj.len() - 1)
            } else {
                None
            },
        }
    }
}

/// The injections after one is used: a counted one counts down and is dropped
/// when it reaches zero; an unlimited one stays.
pub open spec fn spec_use_injection(inj: Seq<ErrorInjection>, k: int) -> Seq<ErrorInjection> {
    let e = inj[k];
    if e.count == 0 {
        inj
    } else if e.count == 1 {
        inj.remove(k)
    } else {
        inj.update(k, ErrorInjection { count: (e.count - 1) as u32, ..e })
    }
}

proof fn lemma_injection_index_bounds(inj: Seq<ErrorInjection>, fc: u8)
    ensures
        match spec_injection_index(inj, fc) {
            Some(k) => 0 <= k < inj.len() && (inj[k].function_code == 0 || inj[k].function_code
                == fc) && forall|j: int|
                0 <= j < k ==> !(inj[j].function_code == 0 || inj[j].function_code == fc),
            None => forall|j: int|
                0 <= j < inj.len() ==> !(inj[j].function_code == 0 || inj[j].function_code == fc),
        },
    decreases inj.len(),
{
    if inj.len() > 0 {
        let prev = inj.drop_last();
        lemma_injection_index_bounds(prev, fc);
        assert forall|j: int| 0 <= j < prev.len() implies prev[j] == inj[j] by {}
    }
}


// ── Laws ───────────────────────────────────────────────────────────────────────

proof fn lemma_word_of_be16(v: u16)
    ensures
        spec_word(spec_be16(v)[0], spec_be16(v)[1]) == v,
{
}

/// A register written with Write Single Register (FC06) reads back, with Read
/// Holding Registers (FC03), as the value written; the write itself is echoed.
#[verifier::spinoff_prover]
pub proof fn lemma_write_register_then_read(
    holding: Map<u16, u16>,
    input: Map<u16, u16>,
    coils: Map<u16, bool>,
    discrete: Map<u16, bool>,
    tid: u16,
    unit: u8,
    address: u16,
    value: u16,
    tid2: u16,
    unit2: u8,
)
    ensures
        ({
            let req = spec_be16(address) + spec_be16(value);
            let o1 = spec_process(holding, input, coils, discrete, tid, unit, 0x06, req);
            let o2 = spec_process(
                o1.holding,
                input,
                o1.coils,
                discrete,
                tid2,
                unit2,
                0x03,
                spec_be16(address) + spec_be16(1),
            );
            &&& o1.response == spec_response(tid, unit, 0x06, 0, req)
            &&& o2.response == spec_response(tid2, unit2, 0x03, 2, spec_be16(value))
        }),
{
    let req = spec_be16(address) + spec_be16(value);
    lemma_word_of_be16(address);
    lemma_word_of_be16(value);
    lemma_word_of_be16(1);
    assert(spec_word(req[0], req[1]) == address);
    assert(spec_word(req[2], req[3]) == value);
    let o1 = spec_process(holding, input, coils, discrete, tid, unit, 0x06, req);
    assert(o1.holding == holding.insert(address, value));
    let rd = spec_be16(address) + spec_be16(1);
    assert(spec_word(rd[0], rd[1]) == address);
    assert(spec_word(rd[2], rd[3]) == 1);
    assert(spec_addr(address, 0) == address);
    assert(spec_reg(o1.holding, address, 0) == value);
    assert(spec_register_bytes(o1.holding, address, 1) =~= spec_be16(value));
}

/// A coil switched with Write Single Coil (FC05, 0xFF00 on, 0x0000 off) reads
/// back, with Read Coils (FC01), as one byte holding that state in its lowest bit.
#[verifier::spinoff_prover]
pub proof fn lemma_write_coil_then_read(
    holding: Map<u16, u16>,
    input: Map<u16, u16>,
    coils: Map<u16, bool>,
    discrete: Map<u16, bool>,
    tid: u16,
    unit: u8,
    address: u16,
    on: bool,
    tid2: u16,
    unit2: u8,
)
    ensures
        ({
            let req = spec_be16(address) + spec_be16(if on { 0xFF00u16 } else { 0u16 });
            let o1 = spec_process(holding, input, coils, discrete, tid, unit, 0x05, req);
            let o2 = spec_process(
                o1.holding,
                input,
                o1.coils,
                discrete,
                tid2,
                unit2,
                0x01,
                spec_be16(address) + spec_be16(1),
            );
            &&& o1.response == spec_response(tid, unit, 0x05, 0, req)
            &&& o2.response == spec_response(tid2, unit2, 0x01, 1, seq![if on { 1u8 } else { 0u8 }])
        }),
{
    let v: u16 = if on { 0xFF00u16 } else { 0u16 };
    let req = spec_be16(address) + spec_be16(v);
    lemma_word_of_be16(address);
    lemma_word_of_be16(v);
    lemma_word_of_be16(1);
    assert(spec_word(req[0], req[1]) == address);
    assert(spec_word(req[2], req[3]) == v);
    let o1 = spec_process(holding, input, coils, discrete, tid, unit, 0x05, req);
    assert(o1.coils == coils.insert(address, on));
    let rd = spec_be16(address) + spec_be16(1);
    assert(spec_word(rd[0], rd[1]) == address);
    assert(spec_word(rd[2], rd[3]) == 1);
    assert(spec_addr(address, 0) == address);
    let flags = spec_flags(o1.coils, address, 1);
    assert(flags =~= seq![on]);
    assert(flags.subrange(0, 1) =~= flags);
    assert(flags.drop_first() =~= Seq::<bool>::empty());
    assert(spec_pack_byte(flags.drop_first()) == 0);
    assert(flags[0] == on);
    assert(spec_pack_byte(flags) == (if on { 1nat } else { 0nat }));
    assert(spec_pack_bits(flags) =~= seq![if on { 1u8 } else { 0u8 }]);
}

/// Registers written with Write Multiple Registers (FC10) read back, with Read
/// Holding Registers (FC03) over the same range, as the bytes the write carried.
#[verifier::spinoff_prover]
#[verifier::rlimit(40)]
pub proof fn lemma_write_registers_then_read(
    holding: Map<u16, u16>,
    input: Map<u16, u16>,
    coils: Map<u16, bool>,
    discrete: Map<u16, bool>,
    tid: u16,
    unit: u8,
    start: u16,
    values: Seq<u8>,
    tid2: u16,
    unit2: u8,
)
    requires
        values.len() % 2 == 0,
        2 <= values.len() <= 246,
    ensures
        ({
            let q = (values.len() / 2) as u16;
            let req = spec_be16(start) + spec_be16(q) + seq![values.len() as u8] + values;
            let o1 = spec_process(holding, input, coils, discrete, tid, unit, 0x10, req);
            let o2 = spec_process(
                o1.holding,
                input,
                o1.coils,
                discrete,
                tid2,
                unit2,
                0x03,
                spec_be16(start) + spec_be16(q),
            );
            &&& o1.response == spec_response(tid, unit, 0x10, 0, spec_be16(start) + spec_be16(q))
            &&& o2.response == spec_response(tid2, unit2, 0x03, values.len() as u8, values)
        }),
{
    let q = (values.len() / 2) as u16;
    let req = spec_be16(start) + spec_be16(q) + seq![values.len() as u8] + values;
    lemma_word_of_be16(start);
    lemma_word_of_be16(q);
    assert(spec_word(req[0], req[1]) == start);
    assert(spec_word(req[2], req[3]) == q);
    assert(req[4] as int == values.len());
    assert(req.take(4) =~= spec_be16(start) + spec_be16(q));
    let f = |i: int| spec_word(req[5 + 2 * i], req[6 + 2 * i]);
    let o1 = spec_process(holding, input, coils, discrete, tid, unit, 0x10, req);
    assert(o1.holding == spec_write_run(holding, start, q as int, f));
    let rd = spec_be16(start) + spec_be16(q);
    assert(spec_word(rd[0], rd[1]) == start);
    assert(spec_word(rd[2], rd[3]) == q);
    assert forall|k: int| 0 <= k < 2 * q implies #[trigger] spec_register_bytes(o1.holding, start, q as int)[k]
        == values[k] by {
        let i = k / 2;
        lemma_write_run_step(holding, start, i, f);
        assert(spec_offset(start, spec_addr(start, i)) == i);
        assert(spec_reg(o1.holding, start, i) == spec_word(values[2 * i], values[2 * i + 1]));
    }
    assert(spec_register_bytes(o1.holding, start, q as int) =~= values);
}

impl MockModbusState {
    /// A device with empty banks, no injected exceptions and no requests served.
    pub fn new() -> (s: Self)
        ensures
            s.holding_registers@ == Map::<u16, u16>::empty(),
            s.input_registers@ == Map::<u16, u16>::empty(),
            s.coils@ == Map::<u16, bool>::empty(),
            s.discrete_inputs@ == Map::<u16, bool>::empty(),
            s.error_injections@.len() == 0,
            s.request_count == 0,
    {
        MockModbusState {
            holding_registers: HashMap::new(),
            input_registers: HashMap::new(),
            coils: HashMap::new(),
            discrete_inputs: HashMap::new(),
            error_injections: Vec::new(),
            request_count: 0,
        }
    }

    /// Set a holding register.
    pub fn set_register(&mut self, address: u16, value: u16)
        ensures
            final(self).holding_registers@ == old(self).holding_registers@.insert(address, value),
            final(self).input_registers == old(self).input_registers,
            final(self).coils == old(self).coils,
            final(self).discrete_inputs == old(self).discrete_inputs,
            final(self).error_injections == old(self).error_injections,
            final(self).request_count == old(self).request_count,
    {
        self.holding_registers.insert(address, value);
    }

    /// Set consecutive holding registers from `start_address` on (addresses past
    /// 65535 wrap to 0).
    pub fn set_registers(&mut self, start_address: u16, values: &[u16])
        requires
            values@.len() <= 0x1_0000,
        ensures
            final(self).holding_registers@ == spec_write_run(
                old(self).holding_registers@,
                start_address,
                values@.len() as int,
                |i: int| values@[i],
            ),
            final(self).input_registers == old(self).input_registers,
            final(self).coils == old(self).coils,
            final(self).discrete_inputs == old(self).discrete_inputs,
            final(self).error_injections == old(self).error_injections,
            final(self).request_count == old(self).request_count,
    {
        let ghost f = |i: int| values@[i];
        proof {
            lemma_write_run_empty(old(self).holding_registers@, start_address, f);
        }
        let mut i: usize = 0;
        while i < values.len()
            invariant
                i <= values@.len() <= 0x1_0000,
                f == (|i: int| values@[i]),
                self.holding_registers@ == spec_write_run(old(self).holding_registers@, start_address, i as int, f),
                self.input_registers == old(self).input_registers,
                self.coils == old(self).coils,
                self.discrete_inputs == old(self).discrete_inputs,
                self.error_injections == old(self).error_injections,
                self.request_count == old(self).request_count,
            decreases values@.len() - i,
        {
            let a = addr_after(start_address, i as u16);
            proof {
                lemma_write_run_step(old(self).holding_registers@, start_address, i as int, f);
            }
            self.holding_registers.insert(a, values[i]);
            i += 1;
        }
    }

    /// A holding register, if it was ever set.
    pub fn get_register(&self, address: u16) -> (r: Option<u16>)
        ensures
            r == (if self.holding_registers@.contains_key(address) {
                Some(self.holding_registers@[address])
            } else {
                None
            }),
    {
        match self.holding_registers.get(&address) {
            Some(v) => Some(*v),
            None => None,
        }
    }

    /// Set an input register.
    pub fn set_input_register(&mut self, address: u16, value: u16)
        ensures
            final(self).input_registers@ == old(self).input_registers@.insert(address, value),
            final(self).holding_registers == old(self).holding_registers,
            final(self).coils == old(self).coils,
            final(self).discrete_inputs == old(self).discrete_inputs,
            final(self).error_injections == old(self).error_injections,
            final(self).request_count == old(self).request_count,
    {
        self.input_registers.insert(address, value);
    }

    /// Set a coil.
    pub fn set_coil(&mut self, address: u16, value: bool)
        ensures
            final(self).coils@ == old(self).coils@.insert(address, value),
            final(self).holding_registers == old(self).holding_registers,
            final(self).input_registers == old(self).input_registers,
            final(self).discrete_inputs == old(self).discrete_inputs,
            final(self).error_injections == old(self).error_injections,
            final(self).request_count == old(self).request_count,
    {
        self.coils.insert(address, value);
    }

    /// A coil, if it was ever set.
    pub fn get_coil(&self, address: u16) -> (r: Option<bool>)
        ensures
            r == (if self.coils@.contains_key(address) {
                Some(self.coils@[address])
            } else {
                None
            }),
    {
        match self.coils.get(&address) {
            Some(v) => Some(*v),
            None => None,
        }
    }

    /// Set a discrete input.
    pub fn set_discrete_input(&mut self, address: u16, value: bool)
        ensures
            final(self).discrete_inputs@ == old(self).discrete_inputs@.insert(address, value),
            final(self).holding_registers == old(self).holding_registers,
            final(self).input_registers == old(self).input_registers,
            final(self).coils == old(self).coils,
            final(self).error_injections == old(self).error_injections,
            final(self).request_count == old(self).request_count,
    {
        self.discrete_inputs.insert(address, value);
    }

    /// Answer requests of `function_code` (0: all) with `exception`, `count` times
    /// (0: until cleared).
    pub fn inject_error(&mut self, function_code: u8, exception: ModbusException, count: u32)
        ensures
            final(self).error_injections@ == old(self).error_injections@.push(
                ErrorInjection { function_code, exception, count },
            ),
            final(self).holding_registers == old(self).holding_registers,
            final(self).input_registers == old(self).input_registers,
            final(self).coils == old(self).coils,
            final(self).discrete_inputs == old(self).discrete_inputs,
            final(self).request_count == old(self).request_count,
    {
        self.error_injections.push(ErrorInjection { function_code, exception, count });
    }

    /// Drop every injected exception.
    pub fn clear_error_injections(&mut self)
        ensures
            final(self).error_injections@.len() == 0,
            final(self).holding_registers == old(self).holding_registers,
            final(self).input_registers == old(self).input_registers,
            final(self).coils == old(self).coils,
            final(self).discrete_inputs == old(self).discrete_inputs,
            final(self).request_count == old(self).request_count,
    {
        self.error_injections.clear();
    }

    /// How many requests were served.
    pub fn request_count(&self) -> (n: u64)
        ensures
            n == self.request_count,
    {
        self.request_count
    }

    /// Whether an injected exception applies to requests of `function_code`.
    pub fn has_injection_for(&self, function_code: u8) -> (b: bool)
        ensures
            b == spec_injection_index(self.error_injections@, function_code) is Some,
    {
        let mut i: usize = 0;
        while i < self.error_injections.len()
            invariant
                i <= self.error_injections@.len(),
                forall|j: int|
                    0 <= j < i ==> !(#[trigger] self.error_injections@[j].function_code == 0
                        || self.error_injections@[j].function_code == function_code),
            decreases self.error_injections@.len() - i,
        {
            let fc = self.error_injections[i].function_code;
            if fc == 0 || fc == function_code {
                proof {
                    lemma_injection_index_bounds(self.error_injections@, function_code);
                }
                return true;
            }
            i += 1;
        }
        proof {
            lemma_injection_index_bounds(self.error_injections@, function_code);
        }
        false
    }

    /// The exception injected for a request of `function_code`, if any: the first
    /// injection that applies is used (and counted down).
    pub fn check_error_injection(&mut self, function_code: u8) -> (r: Option<ModbusException>)
        ensures
            match spec_injection_index(old(self).error_injections@, function_code) {
                Some(k) => r == Some(old(self).error_injections@[k].exception)
                    && final(self).error_injections@ == spec_use_injection(
                    old(self).error_injections@,
                    k,
                ),
                None => r is None && final(self).error_injections@ == old(self).error_injections@,
            },
            final(self).holding_registers == old(self).holding_registers,
            final(self).input_registers == old(self).input_registers,
            final(self).coils == old(self).coils,
            final(self).discrete_inputs == old(self).discrete_inputs,
            final(self).request_count == old(self).request_count,
    {
        proof {
            lemma_injection_index_bounds(self.error_injections@, function_code);
        }
        let mut k: usize = 0;
        while k < self.error_injections.len()
            invariant
                k <= self.error_injections@.len(),
                self.error_injections@ == old(self).error_injections@,
                self.holding_registers == old(self).holding_registers,
                self.input_registers == old(self).input_registers,
                self.coils == old(self).coils,
                self.discrete_inputs == old(self).discrete_inputs,
                self.request_count == old(self).request_count,
                forall|j: int|
                    0 <= j < k ==> !(self.error_injections@[j].function_code == 0
                        || self.error_injections@[j].function_code == function_code),
            decreases self.error_injections@.len() - k,
        {
            let e = self.error_injections[k];
            if e.function_code == 0 || e.function_code == function_code {
                proof {
                    lemma_injection_index_bounds(old(self).error_injections@, function_code);
                }
                if e.count == 1 {
                    self.error_injections.remove(k);
                } else if e.count > 1 {
                    self.error_injections.set(k, ErrorInjection { count: e.count - 1, ..e });
                }
                return Some(e.exception);
            }
            k += 1;
        }
        None
    }
}

impl MockModbusState {
    fn write_single_coil(&mut self, tid: u16, unit: u8, d: &[u8]) -> (r: Vec<u8>)
        requires
            d@.len() <= 252,
        ensures
            ({
                let o = spec_process(
                    old(self).holding_registers@,
                    old(self).input_registers@,
                    old(self).coils@,
                    old(self).discrete_inputs@,
                    tid,
                    unit,
                    0x05,
                    d@,
                );
                &&& r@ == o.response
                &&& final(self).holding_registers@ == o.holding
                &&& final(self).coils@ == o.coils
            }),
            final(self).holding_registers == old(self).holding_registers,
            final(self).input_registers == old(self).input_registers,
            final(self).discrete_inputs == old(self).discrete_inputs,
            final(self).error_injections == old(self).error_injections,
            final(self).request_count == old(self).request_count,
    {
        if d.len() < 4 {
            return build_exception_response(tid, unit, 0x05, ModbusException::IllegalDataValue);
        }
        let address: u16 = (d[0] as u16) * 256 + d[1] as u16;
        let value: u16 = (d[2] as u16) * 256 + d[3] as u16;
        let on = if value == 0 {
            false
        } else if value == 0xFF00 {
            true
        } else {
            return build_exception_response(tid, unit, 0x05, ModbusException::IllegalDataValue);
        };
        self.coils.insert(address, on);
        build_response(tid, unit, 0x05, 0, d)
    }

    fn write_single_register(&mut self, tid: u16, unit: u8, d: &[u8]) -> (r: Vec<u8>)
        requires
            d@.len() <= 252,
        ensures
            ({
                let o = spec_process(
                    old(self).holding_registers@,
                    old(self).input_registers@,
                    old(self).coils@,
                    old(self).discrete_inputs@,
                    tid,
                    unit,
                    0x06,
                    d@,
                );
                &&& r@ == o.response
                &&& final(self).holding_registers@ == o.holding
                &&& final(self).coils@ == o.coils
            }),
            final(self).coils == old(self).coils,
            final(self).input_registers == old(self).input_registers,
            final(self).discrete_inputs == old(self).discrete_inputs,
            final(self).error_injections == old(self).error_injections,
            final(self).request_count == old(self).request_count,
    {
        if d.len() < 4 {
            return build_exception_response(tid, unit, 0x06, ModbusException::IllegalDataValue);
        }
        let address: u16 = (d[0] as u16) * 256 + d[1] as u16;
        let value: u16 = (d[2] as u16) * 256 + d[3] as u16;
        self.holding_registers.insert(address, value);
        build_response(tid, unit, 0x06, 0, d)
    }

    fn write_multiple_coils(&mut self, tid: u16, unit: u8, d: &[u8]) -> (r: Vec<u8>)
        requires
            d@.len() <= 252,
            !spec_coil_write_overruns(0x0F, d@),
        ensures
            ({
                let o = spec_process(
                    old(self).holding_registers@,
                    old(self).input_registers@,
                    old(self).coils@,
                    old(self).discrete_inputs@,
                    tid,
                    unit,
                    0x0F,
                    d@,
                );
                &&& r@ == o.response
                &&& final(self).holding_registers@ == o.holding
                &&& final(self).coils@ == o.coils
            }),
            final(self).holding_registers == old(self).holding_registers,
            final(self).input_registers == old(self).input_registers,
            final(self).discrete_inputs == old(self).discrete_inputs,
            final(self).error_injections == old(self).error_injections,
            final(self).request_count == old(self).request_count,
    {
        if d.len() < 5 {
            return build_exception_response(tid, unit, 0x0F, ModbusException::IllegalDataValue);
        }
        let start: u16 = (d[0] as u16) * 256 + d[1] as u16;
        let q: u16 = (d[2] as u16) * 256 + d[3] as u16;
        let bc = d[4] as usize;
        if q == 0 || q > 1968 || d.len() < 5 + bc {
            return build_exception_response(tid, unit, 0x0F, ModbusException::IllegalDataValue);
        }
        let ghost bytes = d@.subrange(5, 5 + bc as int);
        let ghost f = |i: int| spec_packed_flag(bytes, i);
        proof {
            lemma_write_run_empty(old(self).coils@, start, f);
        }
        let mut i: u16 = 0;
        while i < q
            invariant
                i <= q <= 1968,
                d@.len() >= 5 + bc,
                bc == d@[4],
                (q - 1) / 8 < bc,
                bytes == d@.subrange(5, 5 + bc as int),
                f == (|i: int| spec_packed_flag(bytes, i)),
                self.coils@ == spec_write_run(old(self).coils@, start, i as int, f),
                self.holding_registers == old(self).holding_registers,
                self.input_registers == old(self).input_registers,
                self.discrete_inputs == old(self).discrete_inputs,
                self.error_injections == old(self).error_injections,
                self.request_count == old(self).request_count,
            decreases q - i,
        {
            let byte = d[5 + (i / 8) as usize];
            let on = (byte >> ((i % 8) as u8)) & 1u8 == 1u8;
            let a = addr_after(start, i);
            proof {
                lemma_write_run_step(old(self).coils@, start, i as int, f);
                assert(byte == bytes[(i / 8) as int]);
            }
            self.coils.insert(a, on);
            i += 1;
        }
        assert(d@.take(4) =~= d@.subrange(0, 4));
        build_response(tid, unit, 0x0F, 0, &d[0..4])
    }

    fn write_multiple_registers(&mut self, tid: u16, unit: u8, d: &[u8]) -> (r: Vec<u8>)
        requires
            d@.len() <= 252,
        ensures
            ({
                let o = spec_process(
                    old(self).holding_registers@,
                    old(self).input_registers@,
                    old(self).coils@,
                    old(self).discrete_inputs@,
                    tid,
                    unit,
                    0x10,
                    d@,
                );
                &&& r@ == o.response
                &&& final(self).holding_registers@ == o.holding
                &&& final(self).coils@ == o.coils
            }),
            final(self).coils == old(self).coils,
            final(self).input_registers == old(self).input_registers,
            final(self).discrete_inputs == old(self).discrete_inputs,
            final(self).error_injections == old(self).error_injections,
            final(self).request_count == old(self).request_count,
    {
        if d.len() < 5 {
            return build_exception_response(tid, unit, 0x10, ModbusException::IllegalDataValue);
        }
        let start: u16 = (d[0] as u16) * 256 + d[1] as u16;
        let q: u16 = (d[2] as u16) * 256 + d[3] as u16;
        let bc = d[4] as usize;
        if q == 0 || q > 123 || bc != 2 * q as usize || d.len() < 5 + bc {
            return build_exception_response(tid, unit, 0x10, ModbusException::IllegalDataValue);
        }
        let ghost f = |i: int| spec_word(d@[5 + 2 * i], d@[6 + 2 * i]);
        proof {
            lemma_write_run_empty(old(self).holding_registers@, start, f);
        }
        let mut i: u16 = 0;
        while i < q
            invariant
                i <= q <= 123,
                d@.len() >= 5 + 2 * q,
                f == (|i: int| spec_word(d@[5 + 2 * i], d@[6 + 2 * i])),
                self.holding_registers@ == spec_write_run(old(self).holding_registers@, start, i as int, f),
                self.coils == old(self).coils,
                self.input_registers == old(self).input_registers,
                self.discrete_inputs == old(self).discrete_inputs,
                self.error_injections == old(self).error_injections,
                self.request_count == old(self).request_count,
            decreases q - i,
        {
            let k = 5 + 2 * (i as usize);
            let value: u16 = (d[k] as u16) * 256 + d[k + 1] as u16;
            let a = addr_after(start, i);
            proof {
                lemma_write_run_step(old(self).holding_registers@, start, i as int, f);
            }
            self.holding_registers.insert(a, value);
            i += 1;
        }
        assert(d@.take(4) =~= d@.subrange(0, 4));
        build_response(tid, unit, 0x10, 0, &d[0..4])
    }

    /// Serve a request of function `function_code` with data `data` (the PDU
    /// after the function code).
    pub fn process_request(&mut self, transaction_id: u16, unit_id: u8, function_code: u8, data: &[u8]) -> (r:
        Vec<u8>)
        requires
            data@.len() <= 252,
            !spec_coil_write_overruns(function_code, data@),
        ensures
            ({
                let o = spec_process(
                    old(self).holding_registers@,
                    old(self).input_registers@,
                    old(self).coils@,
                    old(self).discrete_inputs@,
                    transaction_id,
                    unit_id,
                    function_code,
                    data@,
                );
                &&& r@ == o.response
                &&& final(self).holding_registers@ == o.holding
                &&& final(self).coils@ == o.coils
            }),
            final(self).input_registers == old(self).input_registers,
            final(self).discrete_inputs == old(self).discrete_inputs,
            final(self).error_injections == old(self).error_injections,
            final(self).request_count == old(self).request_count,
    {
        let tid = transaction_id;
        let unit = unit_id;
        let fc = function_code;
        if fc == 0x01 {
            read_flags(&self.coils, tid, unit, fc, data)
        } else if fc == 0x02 {
            read_flags(&self.discrete_inputs, tid, unit, fc, data)
        } else if fc == 0x03 {
            read_registers(&self.holding_registers, tid, unit, fc, data)
        } else if fc == 0x04 {
            read_registers(&self.input_registers, tid, unit, fc, data)
        } else if fc == 0x05 {
            self.write_single_coil(tid, unit, data)
        } else if fc == 0x06 {
            self.write_single_register(tid, unit, data)
        } else if fc == 0x0F {
            self.write_multiple_coils(tid, unit, data)
        } else if fc == 0x10 {
            self.write_multiple_registers(tid, unit, data)
        } else {
            build_exception_response(tid, unit, fc, ModbusException::IllegalFunction)
        }
    }

    /// Serve one request PDU (function code and data): count it, answer with an
    /// injected exception when one applies, and otherwise process it.
    pub fn handle_request(&mut self, transaction_id: u16, unit_id: u8, pdu: &[u8]) -> (r: Vec<u8>)
        requires
            1 <= pdu@.len() <= 253,
            spec_injection_index(old(self).error_injections@, pdu@[0]) is Some
                || !spec_coil_write_overruns(pdu@[0], pdu@.skip(1)),
        ensures
            final(self).request_count == (old(self).request_count as nat + 1) % 0x1_0000_0000_0000_0000,
            final(self).input_registers == old(self).input_registers,
            final(self).discrete_inputs == old(self).discrete_inputs,
            match spec_injection_index(old(self).error_injections@, pdu@[0]) {
                Some(k) => {
                    &&& r@ == spec_exception_response(
                        transaction_id,
                        unit_id,
                        pdu@[0],
                        old(self).error_injections@[k].exception,
                    )
                    &&& final(self).error_injections@ == spec_use_injection(old(self).error_injections@, k)
                    &&& final(self).holding_registers == old(self).holding_registers
                    &&& final(self).coils == old(self).coils
                },
                None => {
                    let o = spec_process(
                        old(self).holding_registers@,
                        old(self).input_registers@,
                        old(self).coils@,
                        old(self).discrete_inputs@,
                        transaction_id,
                        unit_id,
                        pdu@[0],
                        pdu@.skip(1),
                    );
                    &&& r@ == o.response
                    &&& final(self).holding_registers@ == o.holding
                    &&& final(self).coils@ == o.coils
                    &&& final(self).error_injections@ == old(self).error_injections@
                },
            },
    {
        let fc = pdu[0];
        let data = &pdu[1..pdu.len()];
        assert(data@ =~= pdu@.skip(1));
        self.request_count = self.request_count.wrapping_add(1);
        match self.check_error_injection(fc) {
            Some(e) => build_exception_response(transaction_id, unit_id, fc, e),
            None => self.process_request(transaction_id, unit_id, fc, data),
        }
    }
}

} // verus!
