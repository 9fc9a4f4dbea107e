//! Character-level helpers shared by the parsers: converting between `str`
//! and character sequences, building strings, ASCII case folding, trimming
//! and decimal/hex number parsing with the rules of Rust's integer `FromStr`.
use vstd::prelude::*;
use vstd::string::StrSliceExecFns;
use vstd::utf8::{valid_utf8, decode_utf8};

verus! {

/// Appends one character to a string (`String::push`).
#[verifier::external_body]
pub(crate) fn push_char(s: &mut String, c: char)
    ensures
        final(s)@ == old(s)@.push(c),
{
    s.push(c);
}

/// The characters of a string slice, in order.
pub fn chars_of(s: &str) -> (v: Vec<char>)
    ensures
        v@ == s@,
{
    let n = s.unicode_len();
    let mut v: Vec<char> = Vec::with_capacity(n);
    let mut i: usize = 0;
    while i < n
        invariant
            n == s@.len(),
            i <= n,
            v@ == s@.take(i as int),
        decreases n - i,
    {
        let c = s.get_char(i);
        v.push(c);
        i += 1;
        assert(v@ =~= s@.take(i as int));
    }
    assert(s@.take(n as int) =~= s@);
    v
}

/// A string made of the given characters.
pub fn string_from_chars(cs: &[char]) -> (r: String)
    ensures
        r@ == cs@,
{
    let mut r = String::new();
    let mut i: usize = 0;
    while i < cs.len()
        invariant
            i <= cs.len(),
            r@ == cs@.take(i as int),
        decreases cs.len() - i,
    {
        push_char(&mut r, cs[i]);
        i += 1;
        assert(r@ =~= cs@.take(i as int));
    }
    assert(cs@.take(cs.len() as int) =~= cs@);
    r
}

/// The upper-case hex digit of a value below 16.
pub open spec fn spec_hex_upper(n: u8) -> char {
    if n < 10 {
        (n + 48) as char
    } else {
        (n + 55) as char
    }
}

/// The upper-case hex digit of a value below 16.
pub fn hex_upper(n: u8) -> (c: char)
    requires
        n < 16,
    ensures
        c == spec_hex_upper(n),
{
    if n < 10 {
        (n + 48) as char
    } else {
        (n + 55) as char
    }
}

/// The decimal digit of a value below 10.
pub open spec fn spec_dec_digit(n: u8) -> char {
    (n + 48) as char
}


/// Decimal text of a natural number, without leading zeros.
pub open spec fn spec_decimal(n: nat) -> Seq<char>
    decreases n,
{
    if n < 10 {
        seq![spec_dec_digit(n as u8)]
    } else {
        spec_decimal(n / 10) + seq![spec_dec_digit((n % 10) as u8)]
    }
}

/// Every number has at least one digit.
pub(crate) proof fn lemma_decimal_nonempty(n: nat)
    ensures
        spec_decimal(n).len() > 0,
    decreases n,
{
    if n >= 10 {
        lemma_decimal_nonempty(n / 10);
    }
}

/// Append the decimal text of `n`.
pub fn push_decimal(s: &mut String, n: u64)
    ensures
        final(s)@ == old(s)@ + spec_decimal(n as nat),
    decreases n,
{
    if n >= 10 {
        push_decimal(s, n / 10);
    }
    push_char(s, ((n % 10) as u8 + 48) as char);
    assert(final(s)@ =~= old(s)@ + spec_decimal(n as nat));
}

/// A copy of a string slice.
pub fn to_string(s: &str) -> (r: String)
    ensures
        r@ == s@,
{
    s.to_owned()
}


/// A copy of an optional string.
pub fn clone_opt_string(o: &Option<String>) -> (r: Option<String>)
    ensures
        r == *o,
{
    match o {
        Some(s) => Some(s.clone()),
        None => None,
    }
}


/// `char::is_whitespace`: the Unicode White_Space property.
pub open spec fn spec_is_whitespace(c: char) -> bool {
    let v = c as u32;
    v == 0x20 || (0x09 <= v && v <= 0x0d) || v == 0x85 || v == 0xa0 || v == 0x1680 || (0x2000
        <= v && v <= 0x200a) || v == 0x2028 || v == 0x2029 || v == 0x202f || v == 0x205f || v
        == 0x3000
}

/// Whether `c` is white space (the Unicode White_Space property).
pub fn is_whitespace(c: char) -> (b: bool)
    ensures
        b == spec_is_whitespace(c),
{
    let v = c as u32;
    v == 0x20 || (0x09 <= v && v <= 0x0d) || v == 0x85 || v == 0xa0 || v == 0x1680 || (0x2000
        <= v && v <= 0x200a) || v == 0x2028 || v == 0x2029 || v == 0x202f || v == 0x205f || v
        == 0x3000
}

/// Index of the first non-white-space character at or after `i`.
pub open spec fn spec_lead_end(s: Seq<char>, i: int) -> int
    decreases s.len() - i,
{
    if 0 <= i < s.len() && spec_is_whitespace(s[i]) {
        spec_lead_end(s, i + 1)
    } else {
        i
    }
}

/// End of `s[lo..j]` once trailing white space is removed.
pub open spec fn spec_trail_end(s: Seq<char>, lo: int, j: int) -> int
    decreases j - lo,
{
    if lo < j <= s.len() && spec_is_whitespace(s[j - 1]) {
        spec_trail_end(s, lo, j - 1)
    } else {
        j
    }
}

/// `str::trim`: `s` without leading and trailing white space.
pub open spec fn spec_trim(s: Seq<char>) -> Seq<char> {
    let a = spec_lead_end(s, 0);
    s.subrange(a, spec_trail_end(s, a, s.len() as int))
}

proof fn lemma_lead_end_bounds(s: Seq<char>, i: int)
    requires
        0 <= i <= s.len(),
    ensures
        i <= spec_lead_end(s, i) <= s.len(),
    decreases s.len() - i,
{
    if i < s.len() && spec_is_whitespace(s[i]) {
        lemma_lead_end_bounds(s, i + 1);
    }
}

proof fn lemma_trail_end_bounds(s: Seq<char>, lo: int, j: int)
    requires
        0 <= lo <= j <= s.len(),
    ensures
        lo <= spec_trail_end(s, lo, j) <= j,
    decreases j - lo,
{
    if lo < j && spec_is_whitespace(s[j - 1]) {
        lemma_trail_end_bounds(s, lo, j - 1);
    }
}

/// The characters of `cs` without leading and trailing white space.
pub fn trim_chars(cs: &[char]) -> (r: Vec<char>)
    ensures
        r@ == spec_trim(cs@),
{
    let n = cs.len();
    let mut a: usize = 0;
    while a < n && is_whitespace(cs[a])
        invariant
            a <= n == cs@.len(),
            spec_lead_end(cs@, a as int) == spec_lead_end(cs@, 0),
        decreases n - a,
    {
        a += 1;
    }
    let mut b: usize = n;
    proof {
        lemma_lead_end_bounds(cs@, 0);
    }
    while b > a && is_whitespace(cs[b - 1])
        invariant
            a <= b <= n == cs@.len(),
            a == spec_lead_end(cs@, 0),
            spec_trail_end(cs@, a as int, b as int) == spec_trail_end(cs@, a as int, n as int),
        decreases b - a,
    {
        b -= 1;
    }
    slice_range(cs, a, b)
}

/// A copy of `cs[a..b]`.
pub fn slice_range(cs: &[char], a: usize, b: usize) -> (r: Vec<char>)
    requires
        a <= b <= cs@.len(),
    ensures
        r@ == cs@.subrange(a as int, b as int),
{
    let mut r: Vec<char> = Vec::with_capacity(b - a);
    let mut i: usize = a;
    while i < b
        invariant
            a <= i <= b <= cs@.len(),
            r@ == cs@.subrange(a as int, i as int),
        decreases b - i,
    {
        r.push(cs[i]);
        i += 1;
        assert(r@ =~= cs@.subrange(a as int, i as int));
    }
    r
}

/// ASCII lower-casing of one character.
pub open spec fn spec_ascii_lower(c: char) -> char {
    if 'A' <= c && c <= 'Z' {
        ((c as u32) + 32) as char
    } else {
        c
    }
}

/// `str::eq_ignore_ascii_case` on characters.
pub open spec fn spec_eq_ignore_ascii_case(a: Seq<char>, b: Seq<char>) -> bool {
    a.len() == b.len() && forall|i: int|
        0 <= i < a.len() ==> spec_ascii_lower(#[trigger] a[i]) == spec_ascii_lower(b[i])
}

fn ascii_lower(c: char) -> (d: char)
    ensures
        d == spec_ascii_lower(c),
{
    if 'A' <= c && c <= 'Z' {
        ((c as u32) + 32) as u8 as char
    } else {
        c
    }
}

/// Whether two character sequences are the same.
pub fn same_chars(a: &[char], b: &[char]) -> (r: bool)
    ensures
        r == (a@ == b@),
{
    if a.len() != b.len() {
        return false;
    }
    let mut i: usize = 0;
    while i < a.len()
        invariant
            a@.len() == b@.len(),
            i <= a@.len(),
            forall|k: int| 0 <= k < i ==> a@[k] == b@[k],
        decreases a@.len() - i,
    {
        if a[i] != b[i] {
            return false;
        }
        i += 1;
    }
    assert(a@ =~= b@);
    true
}

/// Whether two character sequences are equal up to ASCII case.
pub fn eq_ignore_ascii_case(a: &[char], b: &[char]) -> (r: bool)
    ensures
        r == spec_eq_ignore_ascii_case(a@, b@),
{
    if a.len() != b.len() {
        return false;
    }
    let mut i: usize = 0;
    while i < a.len()
        invariant
            i <= a@.len() == b@.len(),
            forall|j: int| 0 <= j < i ==> spec_ascii_lower(#[trigger] a@[j]) == spec_ascii_lower(b@[j]),
        decreases a@.len() - i,
    {
        if ascii_lower(a[i]) != ascii_lower(b[i]) {
            return false;
        }
        i += 1;
    }
    true
}

/// Value of a digit character in `radix` (digits 0-9, then letters of either case).
pub open spec fn spec_digit(c: char, radix: nat) -> Option<nat> {
    let v = c as u32;
    let d: int = if 48 <= v && v <= 57 {
        v - 48
    } else if 97 <= v && v <= 122 {
        v - 97 + 10
    } else if 65 <= v && v <= 90 {
        v - 65 + 10
    } else {
        99
    };
    if d < radix {
        Some(d as nat)
    } else {
        None
    }
}

/// Value of a digit string in `radix`, most significant digit first.
pub open spec fn spec_digits_value(s: Seq<char>, radix: nat) -> nat
    decreases s.len(),
{
    if s.len() == 0 {
        0
    } else {
        spec_digits_value(s.drop_last(), radix) * radix + spec_digit(s.last(), radix).unwrap_or(0)
    }
}

/// Whether every character of `s` is a digit in `radix`.
pub open spec fn spec_all_digits(s: Seq<char>, radix: nat) -> bool {
    forall|i: int| 0 <= i < s.len() ==> (#[trigger] spec_digit(s[i], radix)).is_some()
}

/// Unsigned integer parsing as Rust's `FromStr`/`from_str_radix` does it: an optional
/// leading '+', then at least one digit, and a value at most `max`.
pub open spec fn spec_parse_uint(s: Seq<char>, radix: nat, max: nat) -> Option<nat> {
    let body = if s.len() > 0 && s[0] == '+' {
        s.drop_first()
    } else {
        s
    };
    if body.len() > 0 && spec_all_digits(body, radix) && spec_digits_value(body, radix) <= max {
        Some(spec_digits_value(body, radix))
    } else {
        None
    }
}

fn digit(c: char, radix: u32) -> (d: Option<u32>)
    requires
        radix <= 36,
    ensures
        match spec_digit(c, radix as nat) {
            Some(v) => d == Some(v as u32),
            None => d.is_none(),
        },
{
    let v = c as u32;
    let x: u32 = if 48 <= v && v <= 57 {
        v - 48
    } else if 97 <= v && v <= 122 {
        v - 97 + 10
    } else if 65 <= v && v <= 90 {
        v - 65 + 10
    } else {
        99
    };
    if x < radix {
        Some(x)
    } else {
        None
    }
}

proof fn lemma_digits_value_grows(s: Seq<char>, radix: nat, i: int)
    requires
        1 <= radix,
        0 <= i <= s.len(),
    ensures
        spec_digits_value(s.take(i), radix) <= spec_digits_value(s, radix),
    decreases s.len() - i,
{
    if i < s.len() {
        lemma_digits_value_grows(s, radix, i + 1);
        assert(s.take(i + 1).drop_last() =~= s.take(i));
        let v = spec_digits_value(s.take(i), radix);
        assert(v * radix >= v) by (nonlinear_arith)
            requires
                radix >= 1,
        ;
    } else {
        assert(s.take(i) =~= s);
    }
}

/// Parse an unsigned integer in `radix` with an optional leading '+', at most `max`.
pub fn parse_uint(cs: &[char], radix: u32, max: u64) -> (r: Option<u64>)
    requires
        2 <= radix <= 36,
    ensures
        match spec_parse_uint(cs@, radix as nat, max as nat) {
            Some(v) => r == Some(v as u64),
            None => r.is_none(),
        },
{
    let start: usize = if cs.len() > 0 && cs[0] == '+' { 1 } else { 0 };
    let ghost body = if cs@.len() > 0 && cs@[0] == '+' { cs@.drop_first() } else { cs@ };
    assert(body =~= cs@.skip(start as int));
    if cs.len() <= start {
        return None;
    }
    let mut v: u64 = 0;
    let mut i: usize = start;
    while i < cs.len()
        invariant
            start <= i <= cs@.len(),
            2 <= radix <= 36,
            body == cs@.skip(start as int),
            body == (if cs@.len() > 0 && cs@[0] == '+' { cs@.drop_first() } else { cs@ }),
            spec_all_digits(body.take(i - start), radix as nat),
            v as nat == spec_digits_value(body.take(i - start), radix as nat),
            v <= max,
        decreases cs@.len() - i,
    {
        let ghost k = i - start;
        assert(body.take(k + 1).drop_last() =~= body.take(k));
        assert(body[k as int] == cs@[i as int]);
        match digit(cs[i], radix) {
            None => {
                assert(!spec_all_digits(body, radix as nat)) by {
                    assert(spec_digit(body[k as int], radix as nat).is_none());
                }
                assert(spec_parse_uint(cs@, radix as nat, max as nat).is_none());
                return None;
            },
            Some(d) => {
                assert((v as u128) * (radix as u128) <= 0xFFFF_FFFF_FFFF_FFFFu128 * 36) by (nonlinear_arith)
                    requires
                        v <= 0xFFFF_FFFF_FFFF_FFFFu64,
                        radix <= 36,
                ;
                let nv: u128 = (v as u128) * (radix as u128) + (d as u128);
                if nv > max as u128 {
                    proof {
                        if spec_all_digits(body, radix as nat) {
                            lemma_digits_value_grows(body, radix as nat, k + 1);
                        }
                    }
                    return None;
                }
                v = nv as u64;
            },
        }
        i += 1;
        assert forall|j: int| 0 <= j < i - start implies (#[trigger] spec_digit(
            body.take(i - start)[j],
            radix as nat,
        )).is_some() by {
            if j < k {
                assert(body.take(i - start)[j] == body.take(k)[j]);
            }
        }
    }
    assert(body.take(cs@.len() - start) =~= body);
    Some(v)
}


/// Index of the first `c` at or after `i`, or the length when there is none.
pub open spec fn spec_find_from(s: Seq<char>, c: char, i: int) -> int
    decreases s.len() - i,
{
    if i >= s.len() {
        s.len() as int
    } else if s[i] == c {
        i
    } else {
        spec_find_from(s, c, i + 1)
    }
}

proof fn lemma_find_from_bounds(s: Seq<char>, c: char, i: int)
    requires
        0 <= i <= s.len(),
    ensures
        i <= spec_find_from(s, c, i) <= s.len(),
        spec_find_from(s, c, i) < s.len() ==> s[spec_find_from(s, c, i)] == c,
    decreases s.len() - i,
{
    if i < s.len() && s[i] != c {
        lemma_find_from_bounds(s, c, i + 1);
    }
}

/// Index of the first `c` at or after `from`, or the length when there is none.
pub fn find_char(cs: &[char], c: char, from: usize) -> (r: usize)
    requires
        from <= cs@.len(),
    ensures
        r == spec_find_from(cs@, c, from as int),
        from <= r <= cs@.len(),
        r < cs@.len() ==> cs@[r as int] == c,
{
    proof {
        lemma_find_from_bounds(cs@, c, from as int);
    }
    let mut i = from;
    while i < cs.len() && cs[i] != c
        invariant
            from <= i <= cs@.len(),
            spec_find_from(cs@, c, i as int) == spec_find_from(cs@, c, from as int),
        decreases cs@.len() - i,
    {
        i += 1;
    }
    i
}

/// Whether `s` starts with `p`.
pub open spec fn spec_starts_with(s: Seq<char>, p: Seq<char>) -> bool {
    s.len() >= p.len() && s.take(p.len() as int) == p
}

/// Whether `cs` starts with `p`.
pub fn starts_with(cs: &[char], p: &[char]) -> (b: bool)
    ensures
        b == spec_starts_with(cs@, p@),
{
    if cs.len() < p.len() {
        return false;
    }
    let mut i: usize = 0;
    while i < p.len()
        invariant
            i <= p@.len() <= cs@.len(),
            forall|j: int| 0 <= j < i ==> cs@[j] == p@[j],
        decreases p@.len() - i,
    {
        if cs[i] != p[i] {
            assert(cs@.take(p@.len() as int)[i as int] != p@[i as int]);
            return false;
        }
        i += 1;
    }
    assert(cs@.take(p@.len() as int) =~= p@);
    true
}

/// Whether `s` ends with `p`.
pub open spec fn spec_ends_with(s: Seq<char>, p: Seq<char>) -> bool {
    s.len() >= p.len() && s.skip(s.len() - p.len()) == p
}

/// Whether `cs` ends with `p`.
pub fn ends_with(cs: &[char], p: &[char]) -> (b: bool)
    ensures
        b == spec_ends_with(cs@, p@),
{
    if cs.len() < p.len() {
        return false;
    }
    let off = cs.len() - p.len();
    let mut i: usize = 0;
    while i < p.len()
        invariant
            i <= p@.len() <= cs@.len(),
            off == cs@.len() - p@.len(),
            off + p@.len() == cs@.len(),
            cs@.len() == cs.len(),
            forall|j: int| 0 <= j < i ==> cs@[off + j] == p@[j],
        decreases p@.len() - i,
    {
        let k = off + i;
        if cs[k] != p[i] {
            assert(cs@.skip(off as int)[i as int] != p@[i as int]);
            return false;
        }
        i += 1;
    }
    assert(cs@.skip(off as int) =~= p@);
    true
}

/// What `String::from_utf8_lossy` makes of a byte sequence.
pub uninterp spec fn spec_utf8_lossy(b: Seq<u8>) -> Seq<char>;

/// `String::from_utf8_lossy(..).into_owned()`: the text of the bytes, with every invalid
/// sequence replaced by U+FFFD; valid UTF-8 is decoded as it is.
#[verifier::external_body]
pub(crate) fn utf8_lossy(b: &[u8]) -> (s: String)
    ensures
        s@ == spec_utf8_lossy(b@),
        valid_utf8(b@) ==> s@ == decode_utf8(b@),
{
    String::from_utf8_lossy(b).into_owned()
}

} // verus!
