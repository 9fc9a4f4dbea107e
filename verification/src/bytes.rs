//! Byte-buffer helpers shared by the frame encoders.
use vstd::prelude::*;

verus! {

/// Append all bytes of `s` to `v`.
pub fn push_all(v: &mut Vec<u8>, s: &[u8])
    ensures
        final(v)@ == old(v)@ + s@,
{
    let mut i: usize = 0;
    while i < s.len()
        invariant
            i <= s.len(),
            v@ == old(v)@ + s@.take(i as int),
        decreases s.len() - i,
    {
        v.push(s[i]);
        i += 1;
        assert(v@ =~= old(v)@ + s@.take(i as int));
    }
    assert(s@.take(s.len() as int) =~= s@);
}

/// A copy of a byte slice.
pub fn copy_bytes(s: &[u8]) -> (v: Vec<u8>)
    ensures
        v@ == s@,
{
    let mut v: Vec<u8> = Vec::with_capacity(s.len());
    push_all(&mut v, s);
    assert(v@ =~= s@);
    v
}

/// Little-endian unsigned value of the first `n` bytes of `s`.
pub open spec fn spec_le(s: Seq<u8>, n: nat) -> nat
    decreases n,
{
    if n == 0 {
        0
    } else {
        s[0] as nat + 0x100 * spec_le(s.drop_first(), (n - 1) as nat)
    }
}

/// Two's-complement value of `v` read as `bits` bits.
pub open spec fn spec_signed(v: nat, bits: nat) -> int {
    if v >= vstd::arithmetic::power2::pow2((bits - 1) as nat) {
        v - vstd::arithmetic::power2::pow2(bits)
    } else {
        v as int
    }
}

/// The `n` bytes of `v`, low byte first (`v` taken modulo 256^n).
pub open spec fn spec_le_bytes(v: nat, n: nat) -> Seq<u8>
    decreases n,
{
    if n == 0 {
        Seq::empty()
    } else {
        seq![(v % 256) as u8] + spec_le_bytes(v / 256, (n - 1) as nat)
    }
}

/// Reading back the `n` little-endian bytes of a value below 256^n gives the value.
pub proof fn lemma_le_roundtrip(v: nat, n: nat)
    requires
        v < vstd::arithmetic::power::pow(256, n),
    ensures
        spec_le(spec_le_bytes(v, n), n) == v,
        spec_le_bytes(v, n).len() == n,
    decreases n,
{
    if n == 0 {
        vstd::arithmetic::power::lemma_pow0(256);
    } else {
        let p = vstd::arithmetic::power::pow(256, (n - 1) as nat);
        vstd::arithmetic::power::lemma_pow_positive(256, (n - 1) as nat);
        assert(vstd::arithmetic::power::pow(256, n) == 256 * p) by {
            reveal(vstd::arithmetic::power::pow);
        }
        assert(v / 256 < p) by (nonlinear_arith)
            requires
                v < 256 * p,
                p > 0,
        ;
        lemma_le_roundtrip(v / 256, (n - 1) as nat);
        let b = spec_le_bytes(v, n);
        assert(b.drop_first() =~= spec_le_bytes(v / 256, (n - 1) as nat));
        assert(v % 256 + 256 * (v / 256) == v) by (nonlinear_arith);
    }
}

/// The `n` bytes of `v`, low byte first.
pub fn write_le(v: u64, n: usize) -> (b: Vec<u8>)
    ensures
        b@ == spec_le_bytes(v as nat, n as nat),
{
    let mut b: Vec<u8> = Vec::with_capacity(n);
    let mut x: u64 = v;
    let mut i: usize = 0;
    while i < n
        invariant
            i <= n,
            b@ + spec_le_bytes(x as nat, (n - i) as nat) == spec_le_bytes(v as nat, n as nat),
        decreases n - i,
    {
        let ghost before = b@;
        b.push((x % 256) as u8);
        assert(b@ + spec_le_bytes((x / 256) as nat, (n - i - 1) as nat) =~= before
            + spec_le_bytes(x as nat, (n - i) as nat));
        x = x / 256;
        i += 1;
    }
    assert(b@ + spec_le_bytes(x as nat, 0) =~= b@);
    b
}

/// Powers of two met when reading 2, 4 and 8 byte integers.
pub proof fn lemma_pow2_bytes()
    ensures
        vstd::arithmetic::power2::pow2(0) == 1,
        vstd::arithmetic::power2::pow2(8) == 0x100,
        vstd::arithmetic::power2::pow2(15) == 0x8000,
        vstd::arithmetic::power2::pow2(16) == 0x1_0000,
        vstd::arithmetic::power2::pow2(24) == 0x100_0000,
        vstd::arithmetic::power2::pow2(31) == 0x8000_0000,
        vstd::arithmetic::power2::pow2(32) == 0x1_0000_0000,
        vstd::arithmetic::power2::pow2(63) == 0x8000_0000_0000_0000,
        vstd::arithmetic::power2::pow2(64) == 0x1_0000_0000_0000_0000,
{
    vstd::arithmetic::power2::lemma2_to64();
    vstd::arithmetic::power2::lemma2_to64_rest();
}

/// Little-endian value of the first two bytes.
pub fn read_le16(s: &[u8]) -> (v: u32)
    requires
        s@.len() >= 2,
    ensures
        v as nat == spec_le(s@, 2),
        v < 0x1_0000,
{
    proof {
        reveal_with_fuel(spec_le, 3);
    }
    s[0] as u32 + (s[1] as u32) * 0x100
}

/// Little-endian value of the first four bytes.
pub fn read_le32(s: &[u8]) -> (v: u64)
    requires
        s@.len() >= 4,
    ensures
        v as nat == spec_le(s@, 4),
        v < 0x1_0000_0000,
{
    proof {
        reveal_with_fuel(spec_le, 5);
        let t = s@.drop_first();
        assert(t[0] == s@[1] && t.drop_first()[0] == s@[2] && t.drop_first().drop_first()[0] == s@[3]);
    }
    s[0] as u64 + (s[1] as u64) * 0x100 + (s[2] as u64) * 0x1_0000 + (s[3] as u64) * 0x100_0000
}

proof fn lemma_le_split4(s: Seq<u8>)
    requires
        s.len() >= 8,
    ensures
        spec_le(s, 8) == spec_le(s, 4) + 0x1_0000_0000 * spec_le(s.skip(4), 4),
{
    reveal_with_fuel(spec_le, 9);
    let s1 = s.drop_first();
    let s2 = s1.drop_first();
    let s3 = s2.drop_first();
    let s4 = s3.drop_first();
    assert(s4 =~= s.skip(4));
    assert(spec_le(s, 8) == s[0] + 0x100 * (s1[0] + 0x100 * (s2[0] + 0x100 * (s3[0] + 0x100
        * spec_le(s4, 4)))));
}

/// Little-endian value of the first eight bytes.
pub fn read_le64(s: &[u8]) -> (v: u64)
    requires
        s@.len() >= 8,
    ensures
        v as nat == spec_le(s@, 8),
{
    let lo = read_le32(s);
    let hi = read_le32(&s[4..8]);
    proof {
        lemma_le_split4(s@);
        assert(s@.subrange(4, 8).take(4) =~= s@.skip(4).take(4));
        reveal_with_fuel(spec_le, 5);
        let a = s@.subrange(4, 8);
        let b = s@.skip(4);
        assert(a[0] == b[0] && a[1] == b[1] && a[2] == b[2] && a[3] == b[3]);
        assert(a.drop_first()[0] == b.drop_first()[0]);
        assert(a.drop_first().drop_first()[0] == b.drop_first().drop_first()[0]);
        assert(a.drop_first().drop_first().drop_first()[0] == b.drop_first().drop_first().drop_first()[0]);
        assert(spec_le(a, 4) == spec_le(b, 4));
    }
    lo + hi * 0x1_0000_0000
}

} // verus!
