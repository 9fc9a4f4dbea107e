//! Per-channel log files: the log level, which events a level writes, the
//! directory name of a channel, and the text of the lines written.
use vstd::prelude::*;
use crate::logging::{
    spec_arrow, spec_error_context_text, ErrorContext, LoggedEvent, PacketDirection,
    PacketMetadata,
};
use crate::point::{PointType, Quality};
use crate::text::{
    chars_of, eq_ignore_ascii_case, hex_upper, push_char, push_decimal, spec_decimal,
    spec_eq_ignore_ascii_case, spec_hex_upper, string_from_chars,
};

verus! {

// ── Level ──────────────────────────────────────────────────────────────────────

/// Level of a channel's log file.
#[derive(Debug, Clone, Copy, PartialEq, Eq)]
pub enum FileLogLevel {
    /// Key events: errors, connections, writes and point values.
    Info,
    /// Key events, raw packets, poll cycles, state changes, reconnects and reads.
    Debug,
}

impl Default for FileLogLevel {
    fn default() -> (l: Self)
        ensures
            l == FileLogLevel::Info,
    {
        FileLogLevel::Info
    }
}

/// "debug"
pub open spec fn spec_debug_word() -> Seq<char> {
    seq!['d', 'e', 'b', 'u', 'g']
}

impl FileLogLevel {
    /// The level named by `s`: Debug for "debug" in any case, Info otherwise (and
    /// when there is no name).
    pub fn parse(s: Option<&str>) -> (l: Self)
        ensures
            l == (match s {
                Some(t) => if spec_eq_ignore_ascii_case(t@, spec_debug_word()) {
                    FileLogLevel::Debug
                } else {
                    FileLogLevel::Info
                },
                None => FileLogLevel::Info,
            }),
    {
        match s {
            Some(t) => {
                let cs = chars_of(t);
                let w: [char; 5] = ['d', 'e', 'b', 'u', 'g'];
                assert(w@ =~= spec_debug_word());
                if eq_ignore_ascii_case(cs.as_slice(), w.as_slice()) {
                    FileLogLevel::Debug
                } else {
                    FileLogLevel::Info
                }
            },
            None => FileLogLevel::Info,
        }
    }

    /// The level as a byte: Info 0, Debug 1.
    pub fn as_u8(self) -> (b: u8)
        ensures
            b == (if self == FileLogLevel::Debug { 1u8 } else { 0u8 }),
    {
        match self {
            FileLogLevel::Info => 0,
            FileLogLevel::Debug => 1,
        }
    }

    /// The level stored as a byte: 1 is Debug, anything else Info.
    pub fn from_u8(v: u8) -> (l: Self)
        ensures
            l == (if v == 1 { FileLogLevel::Debug } else { FileLogLevel::Info }),
    {
        match v {
            1 => FileLogLevel::Debug,
            _ => FileLogLevel::Info,
        }
    }
}

/// A level survives being stored as a byte.
pub proof fn lemma_level_byte_roundtrip(l: FileLogLevel)
    ensures
        (if (if l == FileLogLevel::Debug { 1u8 } else { 0u8 }) == 1 {
            FileLogLevel::Debug
        } else {
            FileLogLevel::Info
        }) == l,
{
}

/// Whether a log file at `level` takes `event`: errors, connections,
/// disconnections, control and adjustment writes and point values always; the
/// rest only at Debug.
pub open spec fn spec_file_should_log(level: FileLogLevel, event: LoggedEvent) -> bool {
    match event {
        LoggedEvent::Error | LoggedEvent::Connected | LoggedEvent::Disconnected
        | LoggedEvent::ControlWrite { .. } | LoggedEvent::AdjustmentWrite { .. }
        | LoggedEvent::PointValues => true,
        _ => level == FileLogLevel::Debug,
    }
}

/// Whether a log file at `level` takes `event`.
pub fn file_should_log(level: FileLogLevel, event: &LoggedEvent) -> (b: bool)
    ensures
        b == spec_file_should_log(level, *event),
{
    match event {
        LoggedEvent::Error | LoggedEvent::Connected | LoggedEvent::Disconnected
        | LoggedEvent::ControlWrite { .. } | LoggedEvent::AdjustmentWrite { .. }
        | LoggedEvent::PointValues => true,
        _ => match level {
            FileLogLevel::Debug => true,
            FileLogLevel::Info => false,
        },
    }
}

// ── Directory names ────────────────────────────────────────────────────────────

/// Whether `char::is_alphanumeric` holds of a character.
pub uninterp spec fn char_alphanumeric(c: char) -> bool;

/// `char::is_alphanumeric` (Unicode Alphabetic or Numeric). On ASCII it holds of
/// exactly the letters and digits; beyond ASCII the Unicode tables decide, and
/// the result is named by `char_alphanumeric`.
#[verifier::external_body]
fn is_alphanumeric(c: char) -> (b: bool)
    ensures
        b == char_alphanumeric(c),
        (c as u32) < 128 ==> (b <==> (('a' <= c && c <= 'z') || ('A' <= c && c <= 'Z') || ('0' <= c
            && c <= '9'))),
{
    c.is_alphanumeric()
}

/// A channel name made safe as a directory name: every character other than an
/// alphanumeric one, '-', '_' or '#' becomes '_'.
pub open spec fn spec_sanitize_name(s: Seq<char>) -> Seq<char> {
    s.map_values(
        |c: char|
            if char_alphanumeric(c) || c == '-' || c == '_' || c == '#' {
                c
            } else {
                '_'
            },
    )
}

/// A channel name made safe as a directory name.
pub fn sanitize_name(name: &str) -> (r: String)
    ensures
        r@ == spec_sanitize_name(name@),
{
    let cs = chars_of(name);
    let mut out: Vec<char> = Vec::with_capacity(cs.len());
    let mut i: usize = 0;
    while i < cs.len()
        invariant
            i <= cs@.len(),
            out@ == spec_sanitize_name(cs@.take(i as int)),
        decreases cs@.len() - i,
    {
        let c = cs[i];
        let keep = is_alphanumeric(c) || c == '-' || c == '_' || c == '#';
        out.push(if keep { c } else { '_' });
        i += 1;
        assert(out@ =~= spec_sanitize_name(cs@.take(i as int)));
    }
    assert(cs@.take(cs@.len() as int) =~= cs@);
    string_from_chars(out.as_slice())
}

// ── Lines ──────────────────────────────────────────────────────────────────────

/// Two upper-case hex digits of a byte.
pub open spec fn spec_hex2(b: u8) -> Seq<char> {
    seq![spec_hex_upper(b / 16), spec_hex_upper(b % 16)]
}

/// Four upper-case hex digits of a 16-bit value.
pub open spec fn spec_hex4(v: u16) -> Seq<char> {
    spec_hex2((v / 256) as u8) + spec_hex2((v % 256) as u8)
}

/// The bytes as two-digit hex numbers separated by single spaces.
pub open spec fn spec_hex_bytes(d: Seq<u8>) -> Seq<char>
    decreases d.len(),
{
    if d.len() == 0 {
        Seq::empty()
    } else if d.len() == 1 {
        spec_hex2(d[0])
    } else {
        spec_hex_bytes(d.drop_last()) + seq![' '] + spec_hex2(d.last())
    }
}

/// The last register of a range: `start + quantity - 1`, saturating at 65535.
pub open spec fn spec_range_end(start: u16, quantity: u16) -> u16 {
    if start + quantity - 1 > 0xFFFF {
        0xFFFF
    } else {
        (start + quantity - 1) as u16
    }
}

/// The protocol part of a raw packet line.
pub open spec fn spec_proto_info(m: PacketMetadata) -> Seq<char> {
    match m {
        PacketMetadata::Modbus { slave_id, function_code, transaction_id, start_address, quantity, .. } => {
            let tid = match transaction_id {
                Some(t) => seq!['[', 'T', 'I', 'D', '='] + spec_hex4(t) + seq![']', ' '],
                None => Seq::empty(),
            };
            let range = match (start_address, quantity) {
                (Some(s), Some(q)) => if q > 0 {
                    seq![' ', '@'] + spec_decimal(s as nat) + seq!['-'] + spec_decimal(
                        spec_range_end(s, q) as nat,
                    )
                } else {
                    Seq::empty()
                },
                _ => Seq::empty(),
            };
            seq!['m', 'o', 'd', 'b', 'u', 's', ' '] + tid + seq!['[', 's', 'l', 'a', 'v', 'e', '=']
                + spec_decimal(slave_id as nat) + seq![' ', 'f', 'c', '=', '0', 'x'] + spec_hex2(
                function_code,
            ) + range + seq![']']
        },
        PacketMetadata::Iec104 { asdu_type, cause_of_tx, common_addr } => seq![
            'i', 'e', 'c', '1', '0', '4', ' ', '[', 't', 'y', 'p', 'e', '=',
        ] + spec_decimal(asdu_type as nat) + seq![' ', 'c', 'o', 't', '='] + spec_decimal(
            cause_of_tx as nat,
        ) + seq![' ', 'c', 'a', '='] + spec_decimal(common_addr as nat) + seq![']'],
        PacketMetadata::J1939 { pgn, source, destination } => seq![
            'j', '1', '9', '3', '9', ' ', '[', 'p', 'g', 'n', '=',
        ] + spec_decimal(pgn as nat) + seq![' ', 's', 'r', 'c', '='] + spec_decimal(source as nat)
            + seq![' ', 'd', 's', 't', '='] + spec_decimal(destination as nat) + seq![']'],
        PacketMetadata::OpcUa { message_type, request_id } => seq![
            'o', 'p', 'c', 'u', 'a', ' ', '[', 'm', 's', 'g', '=',
        ] + message_type@ + seq![' ', 'r', 'e', 'q', '='] + spec_decimal(request_id as nat) + seq![
            ']',
        ],
        PacketMetadata::Gpio => seq!['g', 'p', 'i', 'o'],
        PacketMetadata::Virtual => seq!['v', 'i', 'r', 't', 'u', 'a', 'l'],
        PacketMetadata::Other { protocol } => protocol@,
    }
}

/// A raw packet line: `<arrow> <protocol info> [<n>B] <hex bytes>`.
pub open spec fn spec_raw_packet_line(d: PacketDirection, data: Seq<u8>, m: PacketMetadata) -> Seq<char> {
    spec_arrow(d) + seq![' '] + spec_proto_info(m) + seq![' ', '['] + spec_decimal(data.len()) + seq![
        'B',
        ']',
        ' ',
    ] + spec_hex_bytes(data)
}

pub(crate) fn push_chars(s: &mut String, cs: &[char])
    ensures
        final(s)@ == old(s)@ + cs@,
{
    let mut i: usize = 0;
    while i < cs.len()
        invariant
            i <= cs@.len(),
            s@ == old(s)@ + cs@.take(i as int),
        decreases cs@.len() - i,
    {
        push_char(s, cs[i]);
        i += 1;
        assert(s@ =~= old(s)@ + cs@.take(i as int));
    }
    assert(cs@.take(cs@.len() as int) =~= cs@);
}

fn push_str(s: &mut String, t: &str)
    ensures
        final(s)@ == old(s)@ + t@,
{
    let cs = chars_of(t);
    push_chars(s, cs.as_slice());
}

fn push_hex2(s: &mut String, b: u8)
    ensures
        final(s)@ == old(s)@ + spec_hex2(b),
{
    push_char(s, hex_upper(b / 16));
    push_char(s, hex_upper(b % 16));
    assert(s@ =~= old(s)@ + spec_hex2(b));
}

fn push_hex_bytes(s: &mut String, data: &[u8])
    ensures
        final(s)@ == old(s)@ + spec_hex_bytes(data@),
{
    let mut i: usize = 0;
    while i < data.len()
        invariant
            i <= data@.len(),
            s@ == old(s)@ + spec_hex_bytes(data@.take(i as int)),
        decreases data@.len() - i,
    {
        let ghost before = s@;
        if i > 0 {
            push_char(s, ' ');
        }
        push_hex2(s, data[i]);
        proof {
            let t = data@.take(i + 1);
            assert(t.drop_last() =~= data@.take(i as int));
            if i == 0 {
                assert(spec_hex_bytes(data@.take(0)) =~= Seq::<char>::empty());
            }
            assert(s@ =~= old(s)@ + spec_hex_bytes(t));
        }
        i += 1;
    }
    assert(data@.take(data@.len() as int) =~= data@);
}

#[verifier::spinoff_prover]
#[verifier::rlimit(40)]
fn push_proto_info(s: &mut String, m: &PacketMetadata)
    ensures
        final(s)@ == old(s)@ + spec_proto_info(*m),
{
    match m {
        PacketMetadata::Modbus { slave_id, function_code, transaction_id, start_address, quantity, .. } => {
            push_chars(s, ['m', 'o', 'd', 'b', 'u', 's', ' '].as_slice());
            let ghost a = s@;
            match transaction_id {
                Some(t) => {
                    push_chars(s, ['[', 'T', 'I', 'D', '='].as_slice());
                    push_hex2(s, (*t / 256) as u8);
                    push_hex2(s, (*t % 256) as u8);
                    push_chars(s, [']', ' '].as_slice());
                },
                None => {},
            }
            let ghost b = s@;
            push_chars(s, ['[', 's', 'l', 'a', 'v', 'e', '='].as_slice());
            push_decimal(s, *slave_id as u64);
            push_chars(s, [' ', 'f', 'c', '=', '0', 'x'].as_slice());
            push_hex2(s, *function_code);
            let ghost c = s@;
            match (start_address, quantity) {
                (Some(st), Some(q)) => {
                    if *q > 0 {
                        push_chars(s, [' ', '@'].as_slice());
                        push_decimal(s, *st as u64);
                        push_char(s, '-');
                        let end: u16 = st.saturating_add(*q - 1);
                        push_decimal(s, end as u64);
                    }
                },
                _ => {},
            }
            push_char(s, ']');
            assert(s@ =~= old(s)@ + spec_proto_info(*m));
        },
        PacketMetadata::Iec104 { asdu_type, cause_of_tx, common_addr } => {
            push_chars(s, ['i', 'e', 'c', '1', '0', '4', ' ', '[', 't', 'y', 'p', 'e', '='].as_slice());
            push_decimal(s, *asdu_type as u64);
            push_chars(s, [' ', 'c', 'o', 't', '='].as_slice());
            push_decimal(s, *cause_of_tx as u64);
            push_chars(s, [' ', 'c', 'a', '='].as_slice());
            push_decimal(s, *common_addr as u64);
            push_char(s, ']');
            assert(s@ =~= old(s)@ + spec_proto_info(*m));
        },
        PacketMetadata::J1939 { pgn, source, destination } => {
            push_chars(s, ['j', '1', '9', '3', '9', ' ', '[', 'p', 'g', 'n', '='].as_slice());
            push_decimal(s, *pgn as u64);
            push_chars(s, [' ', 's', 'r', 'c', '='].as_slice());
            push_decimal(s, *source as u64);
            push_chars(s, [' ', 'd', 's', 't', '='].as_slice());
            push_decimal(s, *destination as u64);
            push_char(s, ']');
            assert(s@ =~= old(s)@ + spec_proto_info(*m));
        },
        PacketMetadata::OpcUa { message_type, request_id } => {
            push_chars(s, ['o', 'p', 'c', 'u', 'a', ' ', '[', 'm', 's', 'g', '='].as_slice());
            push_str(s, message_type.as_str());
            push_chars(s, [' ', 'r', 'e', 'q', '='].as_slice());
            push_decimal(s, *request_id as u64);
            push_char(s, ']');
            assert(s@ =~= old(s)@ + spec_proto_info(*m));
        },
        PacketMetadata::Gpio => {
            push_chars(s, ['g', 'p', 'i', 'o'].as_slice());
        },
        PacketMetadata::Virtual => {
            push_chars(s, ['v', 'i', 'r', 't', 'u', 'a', 'l'].as_slice());
        },
        PacketMetadata::Other { protocol } => {
            push_str(s, protocol.as_str());
        },
    }
}

/// The log line of a raw packet, e.g.
/// `>>> modbus [slave=1 fc=0x03] [6B] 00 01 00 00 00 06`.
pub fn format_raw_packet(direction: &PacketDirection, data: &[u8], metadata: &PacketMetadata) -> (line:
    String)
    ensures
        line@ == spec_raw_packet_line(*direction, data@, *metadata),
{
    let mut line = direction.arrow();
    push_char(&mut line, ' ');
    push_proto_info(&mut line, metadata);
    push_chars(&mut line, [' ', '['].as_slice());
    push_decimal(&mut line, data.len() as u64);
    push_chars(&mut line, ['B', ']', ' '].as_slice());
    push_hex_bytes(&mut line, data);
    assert(line@ =~= spec_raw_packet_line(*direction, data@, *metadata));
    line
}

/// The log line of an error: `[ERROR] [<context>] <message>`.
pub open spec fn spec_error_line(error: Seq<char>, c: ErrorContext) -> Seq<char> {
    seq!['[', 'E', 'R', 'R', 'O', 'R', ']', ' ', '['] + spec_error_context_text(c) + seq![']', ' ']
        + error
}

/// The log line of an error.
pub fn format_error(error: &str, context: &ErrorContext) -> (line: String)
    ensures
        line@ == spec_error_line(error@, *context),
{
    let mut line = string_from_chars(['[', 'E', 'R', 'R', 'O', 'R', ']', ' ', '['].as_slice());
    let ctx = context.text();
    push_str(&mut line, ctx.as_str());
    push_chars(&mut line, [']', ' '].as_slice());
    push_str(&mut line, error);
    assert(line@ =~= spec_error_line(error@, *context));
    line
}

/// The log line of a poll cycle: `[POLL] points=<n> ok=<n> fail=<n> (<ms>ms)`.
pub open spec fn spec_poll_line(points: nat, ok: nat, fail: nat, ms: nat) -> Seq<char> {
    seq!['[', 'P', 'O', 'L', 'L', ']', ' ', 'p', 'o', 'i', 'n', 't', 's', '='] + spec_decimal(points)
        + seq![' ', 'o', 'k', '='] + spec_decimal(ok) + seq![' ', 'f', 'a', 'i', 'l', '=']
        + spec_decimal(fail) + seq![' ', '('] + spec_decimal(ms) + seq!['m', 's', ')']
}

/// The log line of a poll cycle.
pub fn format_poll_cycle(points_count: usize, success_count: usize, failed_count: usize, duration_ms: u64) -> (line:
    String)
    ensures
        line@ == spec_poll_line(
            points_count as nat,
            success_count as nat,
            failed_count as nat,
            duration_ms as nat,
        ),
{
    let mut line = string_from_chars(
        ['[', 'P', 'O', 'L', 'L', ']', ' ', 'p', 'o', 'i', 'n', 't', 's', '='].as_slice(),
    );
    push_decimal(&mut line, points_count as u64);
    push_chars(&mut line, [' ', 'o', 'k', '='].as_slice());
    push_decimal(&mut line, success_count as u64);
    push_chars(&mut line, [' ', 'f', 'a', 'i', 'l', '='].as_slice());
    push_decimal(&mut line, failed_count as u64);
    push_chars(&mut line, [' ', '('].as_slice());
    push_decimal(&mut line, duration_ms);
    push_chars(&mut line, ['m', 's', ')'].as_slice());
    assert(line@ =~= spec_poll_line(
        points_count as nat,
        success_count as nat,
        failed_count as nat,
        duration_ms as nat,
    ));
    line
}

/// Decimal text of `n` padded with leading zeros to at least three digits.
pub open spec fn spec_dec3(n: nat) -> Seq<char> {
    if n < 10 {
        seq!['0', '0'] + spec_decimal(n)
    } else if n < 100 {
        seq!['0'] + spec_decimal(n)
    } else {
        spec_decimal(n)
    }
}

/// A line with its group prefix `[G<nnn>] ` (the group id modulo 1000, three
/// digits) when there is a group.
pub open spec fn spec_group_line(group_id: Option<u32>, line: Seq<char>) -> Seq<char> {
    match group_id {
        Some(g) => seq!['[', 'G'] + spec_dec3((g % 1000) as nat) + seq![']', ' '] + line,
        None => line,
    }
}

/// A line with its group prefix.
pub fn format_with_group_id(group_id: Option<u32>, line: &str) -> (r: String)
    ensures
        r@ == spec_group_line(group_id, line@),
{
    match group_id {
        Some(g) => {
            let n = g % 1000;
            let mut r = string_from_chars(['[', 'G'].as_slice());
            if n < 10 {
                push_chars(&mut r, ['0', '0'].as_slice());
            } else if n < 100 {
                push_char(&mut r, '0');
            }
            push_decimal(&mut r, n as u64);
            push_chars(&mut r, [']', ' '].as_slice());
            push_str(&mut r, line);
            assert(r@ =~= spec_group_line(group_id, line@));
            r
        },
        None => {
            let cs = chars_of(line);
            string_from_chars(cs.as_slice())
        },
    }
}


// ── Write results and point values ─────────────────────────────────────────────

/// The log line of a control or adjustment write:
/// `[<tag>] cmds=<n> ok (<succeeded>) (<ms>ms)` or
/// `[<tag>] cmds=<n> FAILED: <error> (<ms>ms)`.
pub open spec fn spec_write_result_line(tag: Seq<char>, n: nat, result: Result<nat, Seq<char>>, ms: nat) -> Seq<
    char,
> {
    seq!['['] + tag + seq![']', ' ', 'c', 'm', 'd', 's', '='] + spec_decimal(n) + match result {
        Ok(ok) => seq![' ', 'o', 'k', ' ', '('] + spec_decimal(ok) + seq![')'],
        Err(e) => seq![' ', 'F', 'A', 'I', 'L', 'E', 'D', ':', ' '] + e,
    } + seq![' ', '('] + spec_decimal(ms) + seq!['m', 's', ')']
}

/// The log line of a control or adjustment write; `result` is the number of
/// commands that succeeded, or the error.
pub fn format_write_result(tag: &str, commands_count: usize, result: &Result<usize, String>, duration_ms: u64) -> (line:
    String)
    ensures
        line@ == spec_write_result_line(
            tag@,
            commands_count as nat,
            match result {
                Ok(n) => Ok(*n as nat),
                Err(e) => Err(e@),
            },
            duration_ms as nat,
        ),
{
    let mut line = string_from_chars(['['].as_slice());
    push_str(&mut line, tag);
    push_chars(&mut line, [']', ' ', 'c', 'm', 'd', 's', '='].as_slice());
    push_decimal(&mut line, commands_count as u64);
    match result {
        Ok(n) => {
            push_chars(&mut line, [' ', 'o', 'k', ' ', '('].as_slice());
            push_decimal(&mut line, *n as u64);
            push_char(&mut line, ')');
        },
        Err(e) => {
            push_chars(&mut line, [' ', 'F', 'A', 'I', 'L', 'E', 'D', ':', ' '].as_slice());
            push_str(&mut line, e.as_str());
        },
    }
    push_chars(&mut line, [' ', '('].as_slice());
    push_decimal(&mut line, duration_ms);
    push_chars(&mut line, ['m', 's', ')'].as_slice());
    assert(line@ =~= spec_write_result_line(
        tag@,
        commands_count as nat,
        match result {
            Ok(n) => Ok(*n as nat),
            Err(e) => Err(e@),
        },
        duration_ms as nat,
    ));
    line
}

/// A point value as written to the log: id, kind, the value already as text,
/// and quality.
#[derive(Debug, Clone)]
pub struct PointValueSummary {
    pub id: u32,
    pub point_type: PointType,
    pub value: String,
    pub quality: Quality,
}

/// `id:value`, with `!` after it when the quality is not good.
pub open spec fn spec_value_item(v: PointValueSummary) -> Seq<char> {
    spec_decimal(v.id as nat) + seq![':'] + v.value@ + if v.quality == Quality::Good {
        Seq::<char>::empty()
    } else {
        seq!['!']
    }
}

/// The items of the values of kind `pt`, in order, separated by ", ".
pub open spec fn spec_value_items(vs: Seq<PointValueSummary>, pt: PointType) -> Seq<char>
    decreases vs.len(),
{
    if vs.len() == 0 {
        Seq::empty()
    } else {
        let prev = spec_value_items(vs.drop_last(), pt);
        let v = vs.last();
        if v.point_type != pt {
            prev
        } else if prev.len() == 0 {
            spec_value_item(v)
        } else {
            prev + seq![',', ' '] + spec_value_item(v)
        }
    }
}

/// Whether some value is of kind `pt`.
pub open spec fn spec_has_kind(vs: Seq<PointValueSummary>, pt: PointType) -> bool {
    exists|i: int| 0 <= i < vs.len() && vs[i].point_type == pt
}

/// The line of kind `pt` (tagged `[<tag>] `), when a value is of that kind.
pub open spec fn spec_kind_line(vs: Seq<PointValueSummary>, pt: PointType, tag: char) -> Seq<Seq<char>> {
    if spec_has_kind(vs, pt) {
        seq![seq!['[', tag, ']', ' '] + spec_value_items(vs, pt)]
    } else {
        Seq::empty()
    }
}

/// One line per kind present, in the order T, S, C, A.
pub open spec fn spec_value_lines(vs: Seq<PointValueSummary>) -> Seq<Seq<char>> {
    spec_kind_line(vs, PointType::Telemetry, 'T') + spec_kind_line(vs, PointType::Signal, 'S')
        + spec_kind_line(vs, PointType::Control, 'C') + spec_kind_line(vs, PointType::Adjustment, 'A')
}

proof fn lemma_items_empty_iff(vs: Seq<PointValueSummary>, pt: PointType)
    ensures
        spec_value_items(vs, pt).len() == 0 <==> !spec_has_kind(vs, pt),
    decreases vs.len(),
{
    if vs.len() > 0 {
        lemma_items_empty_iff(vs.drop_last(), pt);
        let prev = vs.drop_last();
        if spec_has_kind(prev, pt) {
            let i = choose|i: int| 0 <= i < prev.len() && prev[i].point_type == pt;
            assert(vs[i].point_type == pt);
        }
        if spec_has_kind(vs, pt) && vs.last().point_type != pt {
            let i = choose|i: int| 0 <= i < vs.len() && vs[i].point_type == pt;
            assert(i < vs.len() - 1);
            assert(prev[i].point_type == pt);
        }
        if vs.last().point_type == pt {
            assert(vs[vs.len() - 1].point_type == pt);
            assert(spec_decimal(vs.last().id as nat).len() > 0) by {
                crate::text::lemma_decimal_nonempty(vs.last().id as nat);
            }
        }
    }
}

/// The line of the values of one kind, if any value is of that kind.
fn kind_line(values: &[PointValueSummary], pt: PointType, tag: char) -> (r: Option<String>)
    ensures
        match r {
            Some(l) => spec_has_kind(values@, pt) && l@ == seq!['[', tag, ']', ' '] + spec_value_items(
                values@,
                pt,
            ),
            None => !spec_has_kind(values@, pt),
        },
{
    let mut items = String::new();
    let mut any = false;
    let mut i: usize = 0;
    while i < values.len()
        invariant
            i <= values@.len(),
            items@ == spec_value_items(values@.take(i as int), pt),
            any == spec_has_kind(values@.take(i as int), pt),
        decreases values@.len() - i,
    {
        let ghost pre = values@.take(i as int);
        assert(values@.take(i + 1).drop_last() =~= pre);
        let v = &values[i];
        if v.point_type == pt {
            if any {
                push_chars(&mut items, [',', ' '].as_slice());
            }
            proof {
                lemma_items_empty_iff(pre, pt);
            }
            push_decimal(&mut items, v.id as u64);
            push_char(&mut items, ':');
            push_str(&mut items, v.value.as_str());
            if v.quality != Quality::Good {
                push_char(&mut items, '!');
            }
            any = true;
            proof {
                assert(values@.take(i + 1)[i as int].point_type == pt);
            }
        } else {
            proof {
                let nxt = values@.take(i + 1);
                if spec_has_kind(nxt, pt) {
                    let j = choose|j: int| 0 <= j < nxt.len() && #[trigger] nxt[j].point_type == pt;
                    assert(pre[j].point_type == pt);
                }
                if spec_has_kind(pre, pt) {
                    let j = choose|j: int| 0 <= j < pre.len() && #[trigger] pre[j].point_type == pt;
                    assert(nxt[j].point_type == pt);
                }
            }
        }
        i += 1;
        assert(items@ =~= spec_value_items(values@.take(i as int), pt));
    }
    assert(values@.take(values@.len() as int) =~= values@);
    if any {
        let mut line = string_from_chars(['[', tag, ']', ' '].as_slice());
        push_str(&mut line, items.as_str());
        Some(line)
    } else {
        None
    }
}

/// The log lines of point values: one line per kind present, in the order
/// T, S, C, A, each `[<kind>] id:value, id:value!, ...` (`!` marks a quality
/// other than good).
pub fn format_point_values_by_type(values: &[PointValueSummary]) -> (lines: Vec<String>)
    ensures
        lines@.len() == spec_value_lines(values@).len(),
        forall|k: int| 0 <= k < lines@.len() ==> (#[trigger] lines@[k])@ == spec_value_lines(values@)[k],
{
    let mut lines: Vec<String> = Vec::new();
    let kinds: [(PointType, char); 4] = [
        (PointType::Telemetry, 'T'),
        (PointType::Signal, 'S'),
        (PointType::Control, 'C'),
        (PointType::Adjustment, 'A'),
    ];
    let ghost parts: Seq<Seq<Seq<char>>> = seq![
        spec_kind_line(values@, PointType::Telemetry, 'T'),
        spec_kind_line(values@, PointType::Signal, 'S'),
        spec_kind_line(values@, PointType::Control, 'C'),
        spec_kind_line(values@, PointType::Adjustment, 'A'),
    ];
    let ghost acc: Seq<Seq<char>> = Seq::empty();
    let mut k: usize = 0;
    while k < 4
        invariant
            k <= 4,
            kinds@ == seq![
                (PointType::Telemetry, 'T'),
                (PointType::Signal, 'S'),
                (PointType::Control, 'C'),
                (PointType::Adjustment, 'A'),
            ],
            parts.len() == 4,
            forall|j: int| 0 <= j < 4 ==> #[trigger] parts[j] == spec_kind_line(values@, kinds@[j].0, kinds@[j].1),
            lines@.len() == acc.len(),
            forall|m: int| 0 <= m < acc.len() ==> (#[trigger] lines@[m])@ == acc[m],
            acc == (if k == 0 {
                Seq::<Seq<char>>::empty()
            } else if k == 1 {
                parts[0]
            } else if k == 2 {
                parts[0] + parts[1]
            } else if k == 3 {
                parts[0] + parts[1] + parts[2]
            } else {
                parts[0] + parts[1] + parts[2] + parts[3]
            }),
        decreases 4 - k,
    {
        let (pt, tag) = kinds[k];
        let ghost before = acc;
        match kind_line(values, pt, tag) {
            Some(l) => {
                proof {
                    acc = acc.push(l@);
                }
                lines.push(l);
                assert(parts[k as int] =~= seq![l@]);
            },
            None => {
                assert(parts[k as int] =~= Seq::<Seq<char>>::empty());
            },
        }
        proof {
            assert(acc =~= before + parts[k as int]);
        }
        k += 1;
    }
    lines
}

} // verus!
