//! The Voltage-485 private RS-485 protocol: CRC-16/MODBUS, request frames,
//! response parsing, channel configuration and the bookkeeping of a poll cycle.
//!
//! Frame: `5A A5 | Len | ID CMD payload.. | CRC16 (LE)`, the CRC taken over
//! `Len` and the data bytes.
use vstd::prelude::*;
use std::time::Duration;
use crate::duration::{duration_from_millis, millis_duration};
use crate::point::PointType;
use crate::poll::PointFailure;
use crate::text::string_from_chars;

verus! {

/// First header byte.
pub const FRAME_HEADER_0: u8 = 0x5A;
/// Second header byte.
pub const FRAME_HEADER_1: u8 = 0xA5;
/// Command: query device information (power reading).
pub const CMD_QUERY_DEVICE: u8 = 0x01;
/// Default serial baud rate.
pub const DEFAULT_BAUD_RATE: u32 = 115_200;
/// Default I/O timeout (ms).
pub const DEFAULT_IO_TIMEOUT_MS: u64 = 1000;
/// Default number of retries per device.
pub const DEFAULT_RETRY_COUNT: u32 = 2;
/// Default pause between frames (ms).
pub const DEFAULT_FRAME_DELAY_MS: u64 = 50;
/// Largest frame the reader accepts.
pub const MAX_FRAME_SIZE: usize = 264;

// ── CRC-16/MODBUS ──────────────────────────────────────────────────────────────

/// One shift step of the reflected CRC register (polynomial 0xA001).
pub open spec fn spec_crc_shift(c: u16) -> u16 {
    if c % 2 == 1 {
        ((c / 2) ^ 0xA001u16) as u16
    } else {
        c / 2
    }
}

/// `k` shift steps.
pub open spec fn spec_crc_shifts(c: u16, k: nat) -> u16
    decreases k,
{
    if k == 0 {
        c
    } else {
        spec_crc_shifts(spec_crc_shift(c), (k - 1) as nat)
    }
}

/// The register after taking in one byte.
pub open spec fn spec_crc_byte(c: u16, b: u8) -> u16 {
    spec_crc_shifts(c ^ (b as u16), 8)
}

/// CRC-16/MODBUS of a byte sequence: initial value 0xFFFF, reflected polynomial
/// 0xA001, no final XOR.
pub open spec fn spec_crc16(s: Seq<u8>) -> u16
    decreases s.len(),
{
    if s.len() == 0 {
        0xFFFF
    } else {
        spec_crc_byte(spec_crc16(s.drop_last()), s.last())
    }
}

/// CRC-16/MODBUS of `data`.
pub fn crc16_modbus(data: &[u8]) -> (crc: u16)
    ensures
        crc == spec_crc16(data@),
{
    let mut crc: u16 = 0xFFFF;
    let mut i: usize = 0;
    while i < data.len()
        invariant
            i <= data@.len(),
            crc == spec_crc16(data@.take(i as int)),
        decreases data@.len() - i,
    {
        let ghost before = crc;
        crc = crc ^ (data[i] as u16);
        let mut k: u32 = 0;
        while k < 8
            invariant
                k <= 8,
                spec_crc_shifts(crc, (8 - k) as nat) == spec_crc_byte(before, data@[i as int]),
            decreases 8 - k,
        {
            if crc % 2 == 1 {
                crc = (crc / 2) ^ 0xA001;
            } else {
                crc = crc / 2;
            }
            k += 1;
        }
        assert(data@.take(i + 1).drop_last() =~= data@.take(i as int));
        i += 1;
    }
    assert(data@.take(data@.len() as int) =~= data@);
    crc
}

// ── Frames ─────────────────────────────────────────────────────────────────────

/// The two CRC bytes, low byte first.
pub open spec fn spec_crc_le(crc: u16) -> Seq<u8> {
    seq![(crc % 256) as u8, (crc / 256) as u8]
}

/// A frame carrying `data` (ID, CMD and payload): header, length, data, CRC.
pub open spec fn spec_frame(data: Seq<u8>) -> Seq<u8> {
    let body = seq![data.len() as u8] + data;
    seq![FRAME_HEADER_0, FRAME_HEADER_1] + body + spec_crc_le(spec_crc16(body))
}

/// The request frame for `cmd` to `device_id` (no payload).
pub open spec fn spec_request(device_id: u8, cmd: u8) -> Seq<u8> {
    spec_frame(seq![device_id, cmd])
}

/// Build a request frame: `5A A5 02 ID CMD CRC_L CRC_H`.
pub fn build_request(device_id: u8, cmd: u8) -> (frame: Vec<u8>)
    ensures
        frame@ == spec_request(device_id, cmd),
{
    let crc_input: [u8; 3] = [2, device_id, cmd];
    let crc = crc16_modbus(crc_input.as_slice());
    let mut frame: Vec<u8> = Vec::with_capacity(7);
    frame.push(FRAME_HEADER_0);
    frame.push(FRAME_HEADER_1);
    frame.push(2);
    frame.push(device_id);
    frame.push(cmd);
    frame.push((crc % 256) as u8);
    frame.push((crc / 256) as u8);
    proof {
        let body = seq![2u8] + seq![device_id, cmd];
        assert(crc_input@ =~= body);
        assert(frame@ =~= spec_request(device_id, cmd));
    }
    frame
}

/// A device's answer to a query.
#[derive(Debug, Clone, Copy, PartialEq, Eq)]
pub struct DeviceResponse {
    pub device_id: u8,
    /// The echoed command; absent in the older three-byte answer.
    pub cmd: Option<u8>,
    /// Power in milliwatts.
    pub power_mw: u16,
}

/// Why a response frame was refused.
#[derive(Debug, Clone, Copy, PartialEq, Eq)]
pub enum Voltage485Error {
    /// Fewer than eight bytes.
    FrameTooShort { len: usize },
    /// The frame does not start with 5A A5.
    BadHeader { first: u8, second: u8 },
    /// Fewer bytes than the length byte announces.
    FrameLengthMismatch { expected: usize, got: usize },
    /// The CRC computed over length and data differs from the one received.
    CrcMismatch { calc: u16, recv: u16 },
    /// A data length other than 3 or at least 4.
    UnexpectedDataLength { len: usize },
    /// A header announcing no data, or more than a frame can hold.
    InvalidResponseLength { len: usize },
}

/// How many bytes follow a response header (the data and the CRC), or why the
/// header is refused.
pub open spec fn spec_frame_rest_len(hdr: [u8; 3]) -> Result<usize, Voltage485Error> {
    if hdr[0] != FRAME_HEADER_0 || hdr[1] != FRAME_HEADER_1 {
        Err(Voltage485Error::BadHeader { first: hdr[0], second: hdr[1] })
    } else if hdr[2] == 0 || hdr[2] > MAX_FRAME_SIZE - 5 {
        Err(Voltage485Error::InvalidResponseLength { len: hdr[2] as usize })
    } else {
        Ok((hdr[2] + 2) as usize)
    }
}

/// Check the three header bytes of a response and say how many bytes to read
/// after them.
pub fn frame_rest_len(hdr: &[u8; 3]) -> (r: Result<usize, Voltage485Error>)
    ensures
        r == spec_frame_rest_len(*hdr),
{
    if hdr[0] != FRAME_HEADER_0 || hdr[1] != FRAME_HEADER_1 {
        return Err(Voltage485Error::BadHeader { first: hdr[0], second: hdr[1] });
    }
    let data_len = hdr[2] as usize;
    if data_len == 0 || data_len > MAX_FRAME_SIZE - 5 {
        return Err(Voltage485Error::InvalidResponseLength { len: data_len });
    }
    Ok(data_len + 2)
}

/// Big-endian value of two bytes.
pub open spec fn spec_be16(hi: u8, lo: u8) -> u16 {
    (hi as nat * 256 + lo as nat) as u16
}

/// What a response frame says: `ID powerH powerL` (older firmware) or
/// `ID CMD powerH powerL [extra..]`, once header, length and CRC are checked.
pub open spec fn spec_parse_response(f: Seq<u8>) -> Result<DeviceResponse, Voltage485Error> {
    if f.len() < 8 {
        Err(Voltage485Error::FrameTooShort { len: f.len() as usize })
    } else if f[0] != FRAME_HEADER_0 || f[1] != FRAME_HEADER_1 {
        Err(Voltage485Error::BadHeader { first: f[0], second: f[1] })
    } else {
        let len = f[2] as int;
        if f.len() < 5 + len {
            Err(Voltage485Error::FrameLengthMismatch { expected: (5 + len) as usize, got: f.len() as usize })
        } else {
            let calc = spec_crc16(f.subrange(2, 3 + len));
            let recv = (f[3 + len] as nat + f[4 + len] as nat * 256) as u16;
            if calc != recv {
                Err(Voltage485Error::CrcMismatch { calc, recv })
            } else if len == 3 {
                Ok(DeviceResponse { device_id: f[3], cmd: None, power_mw: spec_be16(f[4], f[5]) })
            } else if len >= 4 {
                Ok(DeviceResponse { device_id: f[3], cmd: Some(f[4]), power_mw: spec_be16(f[5], f[6]) })
            } else {
                Err(Voltage485Error::UnexpectedDataLength { len: len as usize })
            }
        }
    }
}

/// Parse and check a complete response frame.
pub fn parse_response(frame: &[u8]) -> (r: Result<DeviceResponse, Voltage485Error>)
    ensures
        r == spec_parse_response(frame@),
{
    if frame.len() < 8 {
        return Err(Voltage485Error::FrameTooShort { len: frame.len() });
    }
    if frame[0] != FRAME_HEADER_0 || frame[1] != FRAME_HEADER_1 {
        return Err(Voltage485Error::BadHeader { first: frame[0], second: frame[1] });
    }
    let len = frame[2] as usize;
    let expected_total = 5 + len;
    if frame.len() < expected_total {
        return Err(Voltage485Error::FrameLengthMismatch { expected: expected_total, got: frame.len() });
    }
    let crc_calc = crc16_modbus(&frame[2..3 + len]);
    let crc_rx: u16 = frame[3 + len] as u16 + (frame[4 + len] as u16) * 256;
    if crc_calc != crc_rx {
        return Err(Voltage485Error::CrcMismatch { calc: crc_calc, recv: crc_rx });
    }
    if len == 3 {
        Ok(DeviceResponse {
            device_id: frame[3],
            cmd: None,
            power_mw: (frame[4] as u16) * 256 + frame[5] as u16,
        })
    } else if len >= 4 {
        Ok(DeviceResponse {
            device_id: frame[3],
            cmd: Some(frame[4]),
            power_mw: (frame[5] as u16) * 256 + frame[6] as u16,
        })
    } else {
        Err(Voltage485Error::UnexpectedDataLength { len })
    }
}

/// The data bytes of a response: `ID [CMD] powerH powerL`.
pub open spec fn spec_response_data(r: DeviceResponse) -> Seq<u8> {
    match r.cmd {
        None => seq![r.device_id, (r.power_mw / 256) as u8, (r.power_mw % 256) as u8],
        Some(c) => seq![r.device_id, c, (r.power_mw / 256) as u8, (r.power_mw % 256) as u8],
    }
}

/// Every response that a device can send is read back exactly: parsing the frame
/// that carries a response's data gives that response.
pub proof fn lemma_response_roundtrip(r: DeviceResponse)
    ensures
        spec_parse_response(spec_frame(spec_response_data(r))) == Ok::<
            DeviceResponse,
            Voltage485Error,
        >(r),
{
    let data = spec_response_data(r);
    let f = spec_frame(data);
    let len = data.len() as int;
    let body = seq![data.len() as u8] + data;
    assert(f.subrange(2, 3 + len) =~= body);
    assert(f[3 + len] == (spec_crc16(body) % 256) as u8);
    assert(f[4 + len] == (spec_crc16(body) / 256) as u8);
}

/// A frame whose CRC does not match its length and data is never accepted.
pub proof fn lemma_bad_crc_refused(f: Seq<u8>)
    requires
        f.len() >= 8,
        f.len() >= 5 + f[2] as int,
        spec_crc16(f.subrange(2, 3 + f[2] as int)) != (f[3 + f[2] as int] as nat + f[4
            + f[2] as int] as nat * 256) as u16,
    ensures
        spec_parse_response(f) is Err,
{
}

// ── Configuration ──────────────────────────────────────────────────────────────

/// Per-point mapping: which device to query, with which command.
#[derive(Debug, Clone, Copy, PartialEq, Eq)]
pub struct Voltage485PointMapping {
    pub device_id: u8,
    pub cmd: u8,
}

/// The command used when a mapping names none: query device.
pub fn default_cmd() -> (c: u8)
    ensures
        c == CMD_QUERY_DEVICE,
{
    CMD_QUERY_DEVICE
}

/// A point to poll: the device and command that give its value.
#[derive(Debug, Clone, Copy, PartialEq, Eq)]
pub struct PollTarget {
    pub point_id: u32,
    pub point_type: PointType,
    pub device_id: u8,
    pub cmd: u8,
}

/// Channel parameters, as configured.
#[derive(Debug, Clone)]
pub struct Voltage485ParamsConfig {
    pub device: String,
    pub baud_rate: u32,
    pub timeout_ms: u64,
    pub retry_count: u32,
    pub frame_delay_ms: u64,
}

/// The default serial device, "/dev/ttyAP0".
pub open spec fn spec_default_device() -> Seq<char> {
    seq!['/', 'd', 'e', 'v', '/', 't', 't', 'y', 'A', 'P', '0']
}

/// The default serial device.
pub fn default_device() -> (s: String)
    ensures
        s@ == spec_default_device(),
{
    let cs: [char; 11] = ['/', 'd', 'e', 'v', '/', 't', 't', 'y', 'A', 'P', '0'];
    assert(cs@ =~= spec_default_device());
    string_from_chars(cs.as_slice())
}

/// The default baud rate.
pub fn default_baud_rate() -> (b: u32)
    ensures
        b == DEFAULT_BAUD_RATE,
{
    DEFAULT_BAUD_RATE
}

/// The default I/O timeout (ms).
pub fn default_timeout_ms() -> (t: u64)
    ensures
        t == DEFAULT_IO_TIMEOUT_MS,
{
    DEFAULT_IO_TIMEOUT_MS
}

/// The default retry count.
pub fn default_retry_count() -> (n: u32)
    ensures
        n == DEFAULT_RETRY_COUNT,
{
    DEFAULT_RETRY_COUNT
}

/// The default inter-frame delay (ms).
pub fn default_frame_delay_ms() -> (t: u64)
    ensures
        t == DEFAULT_FRAME_DELAY_MS,
{
    DEFAULT_FRAME_DELAY_MS
}

impl Default for Voltage485ParamsConfig {
    fn default() -> (c: Self)
        ensures
            c.device@ == spec_default_device(),
            c.baud_rate == DEFAULT_BAUD_RATE,
            c.timeout_ms == DEFAULT_IO_TIMEOUT_MS,
            c.retry_count == DEFAULT_RETRY_COUNT,
            c.frame_delay_ms == DEFAULT_FRAME_DELAY_MS,
    {
        Voltage485ParamsConfig {
            device: default_device(),
            baud_rate: default_baud_rate(),
            timeout_ms: default_timeout_ms(),
            retry_count: default_retry_count(),
            frame_delay_ms: default_frame_delay_ms(),
        }
    }
}

/// Channel configuration used at run time.
#[derive(Debug)]
pub struct Voltage485ChannelConfig {
    pub device: String,
    pub baud_rate: u32,
    pub io_timeout: Duration,
    pub retry_count: u32,
    pub frame_delay: Duration,
}

impl Voltage485ParamsConfig {
    /// The run-time configuration these parameters describe.
    pub fn to_channel_config(&self) -> (c: Voltage485ChannelConfig)
        ensures
            c.device@ == self.device@,
            c.baud_rate == self.baud_rate,
            c.io_timeout == millis_duration(self.timeout_ms),
            c.retry_count == self.retry_count,
            c.frame_delay == millis_duration(self.frame_delay_ms),
    {
        Voltage485ChannelConfig {
            device: self.device.clone(),
            baud_rate: self.baud_rate,
            io_timeout: duration_from_millis(self.timeout_ms),
            retry_count: self.retry_count,
            frame_delay: duration_from_millis(self.frame_delay_ms),
        }
    }
}

// ── Poll cycle ─────────────────────────────────────────────────────────────────

/// The text of the failure reported while the port is closed: "Not connected".
pub open spec fn spec_not_connected() -> Seq<char> {
    seq!['N', 'o', 't', ' ', 'c', 'o', 'n', 'n', 'e', 'c', 't', 'e', 'd']
}

/// One failure per target, each "Not connected", in target order.
pub fn not_connected_failures(targets: &[PollTarget]) -> (f: Vec<PointFailure>)
    ensures
        f@.len() == targets@.len(),
        forall|i: int|
            0 <= i < f@.len() ==> (#[trigger] f@[i]).point_id == targets@[i].point_id && f@[i].error@
                == spec_not_connected(),
{
    let msg: [char; 13] = ['N', 'o', 't', ' ', 'c', 'o', 'n', 'n', 'e', 'c', 't', 'e', 'd'];
    assert(msg@ =~= spec_not_connected());
    let mut f: Vec<PointFailure> = Vec::new();
    let mut i: usize = 0;
    while i < targets.len()
        invariant
            i <= targets@.len(),
            msg@ == spec_not_connected(),
            f@.len() == i,
            forall|j: int|
                0 <= j < i ==> (#[trigger] f@[j]).point_id == targets@[j].point_id && f@[j].error@
                    == spec_not_connected(),
        decreases targets@.len() - i,
    {
        f.push(PointFailure { point_id: targets[i].point_id, error: string_from_chars(msg.as_slice()) });
        i += 1;
    }
    f
}

/// The readings of a poll cycle: for each target whose query succeeded, in
/// target order, its point and the power read.
pub open spec fn spec_readings(t: Seq<PollTarget>, r: Seq<Result<DeviceResponse, String>>) -> Seq<
    (u32, PointType, u16),
>
    decreases t.len(),
{
    if t.len() == 0 || r.len() == 0 {
        Seq::empty()
    } else {
        let prev = spec_readings(t.drop_last(), r.drop_last());
        match r.last() {
            Ok(resp) => prev.push((t.last().point_id, t.last().point_type, resp.power_mw)),
            Err(_) => prev,
        }
    }
}

/// The failures of a poll cycle: for each target whose query failed, in target
/// order, its point and the error text.
pub open spec fn spec_failures(t: Seq<PollTarget>, r: Seq<Result<DeviceResponse, String>>) -> Seq<
    (u32, Seq<char>),
>
    decreases t.len(),
{
    if t.len() == 0 || r.len() == 0 {
        Seq::empty()
    } else {
        let prev = spec_failures(t.drop_last(), r.drop_last());
        match r.last() {
            Ok(_) => prev,
            Err(e) => prev.push((t.last().point_id, e@)),
        }
    }
}

/// What a poll cycle collected.
#[derive(Debug)]
pub struct PollCycle {
    pub readings: Vec<(u32, PointType, u16)>,
    pub failures: Vec<PointFailure>,
    pub ok_count: u64,
    pub err_count: u64,
}

/// Gather the outcome of querying each target (`results[i]` is the answer or the
/// error text for `targets[i]`): readings for the answers, failures for the
/// errors, and how many of each.
pub fn collect_poll_results(targets: &[PollTarget], results: &[Result<DeviceResponse, String>]) -> (c:
    PollCycle)
    requires
        targets@.len() == results@.len(),
    ensures
        c.readings@ == spec_readings(targets@, results@),
        c.failures@.len() == spec_failures(targets@, results@).len(),
        forall|i: int|
            0 <= i < c.failures@.len() ==> ((#[trigger] c.failures@[i]).point_id, c.failures@[i].error@)
                == spec_failures(targets@, results@)[i],
        c.ok_count == c.readings@.len(),
        c.err_count == c.failures@.len(),
        c.ok_count + c.err_count == targets@.len(),
{
    let mut readings: Vec<(u32, PointType, u16)> = Vec::new();
    let mut failures: Vec<PointFailure> = Vec::new();
    let mut ok_count: u64 = 0;
    let mut err_count: u64 = 0;
    let mut i: usize = 0;
    while i < targets.len()
        invariant
            i <= targets@.len() == results@.len(),
            readings@ == spec_readings(targets@.take(i as int), results@.take(i as int)),
            failures@.len() == spec_failures(targets@.take(i as int), results@.take(i as int)).len(),
            forall|j: int|
                0 <= j < failures@.len() ==> ((#[trigger] failures@[j]).point_id, failures@[j].error@)
                    == spec_failures(targets@.take(i as int), results@.take(i as int))[j],
            ok_count == readings@.len(),
            err_count == failures@.len(),
            ok_count + err_count == i,
        decreases targets@.len() - i,
    {
        let t = targets[i];
        assert(targets@.take(i + 1).drop_last() =~= targets@.take(i as int));
        assert(results@.take(i + 1).drop_last() =~= results@.take(i as int));
        match &results[i] {
            Ok(resp) => {
                readings.push((t.point_id, t.point_type, resp.power_mw));
                ok_count += 1;
            },
            Err(e) => {
                failures.push(PointFailure { point_id: t.point_id, error: e.clone() });
                err_count += 1;
            },
        }
        i += 1;
    }
    assert(targets@.take(targets@.len() as int) =~= targets@);
    assert(results@.take(results@.len() as int) =~= results@);
    PollCycle { readings, failures, ok_count, err_count }
}

} // verus!
