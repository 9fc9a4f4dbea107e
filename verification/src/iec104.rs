//! IEC 60870-5-104 channels: configuration, and the mapping from information
//! object addresses to configured points.
use vstd::prelude::*;
use std::collections::HashMap;
use std::time::Duration;
use crate::address::ProtocolAddress;
use crate::duration::{duration_from_millis, duration_from_secs, millis_duration, secs_duration};
use crate::point::{PointConfig, PointType};
use chrono::TimeZone;

verus! {

broadcast use vstd::std_specs::hash::group_hash_axioms;

/// The default connect timeout (ms).
pub fn default_connect_timeout_ms() -> (t: u64)
    ensures
        t == 10_000,
{
    10_000
}

/// The default T1 (acknowledgement) timeout (s).
pub fn default_t1_timeout() -> (t: u64)
    ensures
        t == 15,
{
    15
}

/// The default T2 (supervisory) timeout (s).
pub fn default_t2_timeout() -> (t: u64)
    ensures
        t == 10,
{
    10
}

/// The default T3 (test frame) timeout (s).
pub fn default_t3_timeout() -> (t: u64)
    ensures
        t == 20,
{
    20
}

/// The default common address of ASDU.
pub fn default_common_address() -> (a: u16)
    ensures
        a == 1,
{
    1
}

/// Channel parameters, as configured.
#[derive(Debug, Clone)]
pub struct Iec104ParamsConfig {
    /// Target address, e.g. "192.168.1.100:2404".
    pub address: String,
    pub common_address: u16,
    pub connect_timeout_ms: u64,
    pub t1_timeout_s: u64,
    pub t2_timeout_s: u64,
    pub t3_timeout_s: u64,
}

/// Channel configuration used at run time.
#[derive(Debug)]
pub struct Iec104ChannelConfig {
    pub address: String,
    pub common_address: u16,
    pub connect_timeout: Duration,
    pub t1_timeout: Duration,
    pub t2_timeout: Duration,
    pub t3_timeout: Duration,
    /// Maximum unacknowledged I-frames sent.
    pub k: u16,
    /// Acknowledge after this many I-frames received.
    pub w: u16,
    pub points: Vec<PointConfig>,
    /// Configured point (id and kind) by information object address.
    pub ioa_mapping: HashMap<u32, (u32, PointType)>,
}

/// The IOA-to-point mapping of a point list: each IEC 104 point under its IOA,
/// a later point winning over an earlier one with the same IOA.
pub open spec fn spec_ioa_mapping(points: Seq<PointConfig>) -> Map<u32, (u32, PointType)>
    decreases points.len(),
{
    if points.len() == 0 {
        Map::empty()
    } else {
        let prev = spec_ioa_mapping(points.drop_last());
        match points.last().address {
            ProtocolAddress::Iec104(a) => prev.insert(a.ioa, (points.last().id, points.last().point_type)),
            _ => prev,
        }
    }
}

impl Iec104ChannelConfig {
    /// The IOA-to-point mapping in use.
    pub open spec fn mapping(self) -> Map<u32, (u32, PointType)> {
        self.ioa_mapping@
    }

    /// A configuration for `address` with the defaults: common address 1, timeouts
    /// 10 s / 15 s / 10 s / 20 s, k = 12, w = 8, no points.
    pub fn new(address: &str) -> (c: Self)
        ensures
            c.address@ == address@,
            c.common_address == 1,
            c.connect_timeout == secs_duration(10),
            c.t1_timeout == secs_duration(15),
            c.t2_timeout == secs_duration(10),
            c.t3_timeout == secs_duration(20),
            c.k == 12,
            c.w == 8,
            c.points@.len() == 0,
            c.mapping() == Map::<u32, (u32, PointType)>::empty(),
    {
        Iec104ChannelConfig {
            address: address.to_owned(),
            common_address: 1,
            connect_timeout: duration_from_secs(10),
            t1_timeout: duration_from_secs(15),
            t2_timeout: duration_from_secs(10),
            t3_timeout: duration_from_secs(20),
            k: 12,
            w: 8,
            points: Vec::new(),
            ioa_mapping: HashMap::new(),
        }
    }

    /// The same configuration with another common address.
    pub fn with_common_address(self, addr: u16) -> (c: Self)
        ensures
            c.common_address == addr,
            c.address == self.address,
            c.connect_timeout == self.connect_timeout,
            c.t1_timeout == self.t1_timeout,
            c.t2_timeout == self.t2_timeout,
            c.t3_timeout == self.t3_timeout,
            c.k == self.k,
            c.w == self.w,
            c.points == self.points,
            c.ioa_mapping == self.ioa_mapping,
    {
        let mut c = self;
        c.common_address = addr;
        c
    }

    /// The same configuration with another connect timeout.
    pub fn with_connect_timeout(self, timeout: Duration) -> (c: Self)
        ensures
            c.connect_timeout == timeout,
            c.address == self.address,
            c.common_address == self.common_address,
            c.t1_timeout == self.t1_timeout,
            c.t2_timeout == self.t2_timeout,
            c.t3_timeout == self.t3_timeout,
            c.k == self.k,
            c.w == self.w,
            c.points == self.points,
            c.ioa_mapping == self.ioa_mapping,
    {
        let mut c = self;
        c.connect_timeout = timeout;
        c
    }

    /// The same configuration with another T1 timeout.
    pub fn with_t1_timeout(self, timeout: Duration) -> (c: Self)
        ensures
            c.t1_timeout == timeout,
            c.address == self.address,
            c.common_address == self.common_address,
            c.connect_timeout == self.connect_timeout,
            c.t2_timeout == self.t2_timeout,
            c.t3_timeout == self.t3_timeout,
            c.k == self.k,
            c.w == self.w,
            c.points == self.points,
            c.ioa_mapping == self.ioa_mapping,
    {
        let mut c = self;
        c.t1_timeout = timeout;
        c
    }

    /// The same configuration with another T2 timeout.
    pub fn with_t2_timeout(self, timeout: Duration) -> (c: Self)
        ensures
            c.t2_timeout == timeout,
            c.address == self.address,
            c.common_address == self.common_address,
            c.connect_timeout == self.connect_timeout,
            c.t1_timeout == self.t1_timeout,
            c.t3_timeout == self.t3_timeout,
            c.k == self.k,
            c.w == self.w,
            c.points == self.points,
            c.ioa_mapping == self.ioa_mapping,
    {
        let mut c = self;
        c.t2_timeout = timeout;
        c
    }

    /// The same configuration with another T3 timeout.
    pub fn with_t3_timeout(self, timeout: Duration) -> (c: Self)
        ensures
            c.t3_timeout == timeout,
            c.address == self.address,
            c.common_address == self.common_address,
            c.connect_timeout == self.connect_timeout,
            c.t1_timeout == self.t1_timeout,
            c.t2_timeout == self.t2_timeout,
            c.k == self.k,
            c.w == self.w,
            c.points == self.points,
            c.ioa_mapping == self.ioa_mapping,
    {
        let mut c = self;
        c.t3_timeout = timeout;
        c
    }

    /// The same configuration with `points`, each IEC 104 point added to the
    /// IOA mapping.
    pub fn with_points(self, points: Vec<PointConfig>) -> (c: Self)
        ensures
            c.points@ == points@,
            c.mapping() == self.mapping().union_prefer_right(spec_ioa_mapping(points@)),
            c.address == self.address,
            c.common_address == self.common_address,
    {
        let mut c = self;
        let mut i: usize = 0;
        while i < points.len()
            invariant
                i <= points@.len(),
                c.ioa_mapping@ == self.ioa_mapping@.union_prefer_right(
                    spec_ioa_mapping(points@.take(i as int)),
                ),
                c.address == self.address,
                c.common_address == self.common_address,
            decreases points@.len() - i,
        {
            assert(points@.take(i + 1).drop_last() =~= points@.take(i as int));
            match &points[i].address {
                ProtocolAddress::Iec104(a) => {
                    c.ioa_mapping.insert(a.ioa, (points[i].id, points[i].point_type));
                    assert(c.ioa_mapping@ =~= self.ioa_mapping@.union_prefer_right(
                        spec_ioa_mapping(points@.take(i + 1)),
                    ));
                },
                _ => {},
            }
            i += 1;
        }
        assert(points@.take(points@.len() as int) =~= points@);
        c.points = points;
        c
    }

    /// The point id and kind reported for an IOA: the mapped point, or the IOA
    /// itself as a telemetry point when none is mapped.
    pub fn resolve_ioa(&self, ioa: u32) -> (r: (u32, PointType))
        ensures
            r == (if self.mapping().contains_key(ioa) {
                self.mapping()[ioa]
            } else {
                (ioa, PointType::Telemetry)
            }),
    {
        match self.ioa_mapping.get(&ioa) {
            Some(m) => *m,
            None => (ioa, PointType::Telemetry),
        }
    }
}

impl Iec104ParamsConfig {
    /// The run-time configuration these parameters describe (points are added
    /// with `with_points`).
    pub fn to_config(&self) -> (c: Iec104ChannelConfig)
        ensures
            c.address@ == self.address@,
            c.common_address == self.common_address,
            c.connect_timeout == millis_duration(self.connect_timeout_ms),
            c.t1_timeout == secs_duration(self.t1_timeout_s),
            c.t2_timeout == secs_duration(self.t2_timeout_s),
            c.t3_timeout == secs_duration(self.t3_timeout_s),
            c.k == 12,
            c.w == 8,
            c.points@.len() == 0,
            c.mapping() == Map::<u32, (u32, PointType)>::empty(),
    {
        Iec104ChannelConfig::new(self.address.as_str()).with_common_address(
            self.common_address,
        ).with_connect_timeout(duration_from_millis(self.connect_timeout_ms)).with_t1_timeout(
            duration_from_secs(self.t1_timeout_s),
        ).with_t2_timeout(duration_from_secs(self.t2_timeout_s)).with_t3_timeout(
            duration_from_secs(self.t3_timeout_s),
        )
    }
}


// ── CP56Time2a ─────────────────────────────────────────────────────────────────

/// A seven-octet CP56Time2a time tag: milliseconds within the minute, minutes,
/// hours, day of month, day of week, month, and year within the century.
#[derive(Debug, Clone, Copy, PartialEq, Eq)]
pub struct Cp56Time2a {
    pub milliseconds: u16,
    pub minutes: u8,
    pub hours: u8,
    pub day: u8,
    pub day_of_week: u8,
    pub month: u8,
    pub year: u8,
    pub invalid: bool,
    pub summer_time: bool,
}

/// The Unix time in milliseconds of a UTC calendar date and time, as chrono
/// computes it, or `None` for a date or time that does not exist.
pub uninterp spec fn utc_ymd_hms_millis(year: i32, month: u32, day: u32, hour: u32, min: u32, sec: u32) -> Option<i64>;

/// `chrono::Utc.with_ymd_and_hms(..).single()`, read as Unix milliseconds
/// (`DateTime::timestamp_millis`). Its result is a function of the arguments,
/// named `utc_ymd_hms_millis`; the calendar rules are not restated.
#[verifier::external_body]
fn utc_timestamp_millis(year: i32, month: u32, day: u32, hour: u32, min: u32, sec: u32) -> (r: Option<i64>)
    ensures
        r == utc_ymd_hms_millis(year, month, day, hour, min, sec),
{
    match chrono::Utc.with_ymd_and_hms(year, month, day, hour, min, sec).single() {
        Some(dt) => Some(dt.timestamp_millis()),
        None => None,
    }
}

/// The Unix time (ms) a time tag stands for: year 2000 + `year`, the seconds and
/// milliseconds taken from `milliseconds`; `None` when the tag is marked
/// invalid or names no existing date and time.
pub open spec fn spec_cp56time2a_millis(t: Cp56Time2a) -> Option<i64> {
    if t.invalid {
        None
    } else {
        match utc_ymd_hms_millis(
            (2000 + t.year) as i32,
            t.month as u32,
            t.day as u32,
            t.hours as u32,
            t.minutes as u32,
            (t.milliseconds / 1000) as u32,
        ) {
            Some(base) => {
                let total = base + (t.milliseconds % 1000) as int;
                if i64::MIN <= total <= i64::MAX {
                    Some(total as i64)
                } else {
                    None
                }
            },
            None => None,
        }
    }
}

/// The Unix time (ms) of a CP56Time2a tag.
pub fn cp56time2a_to_millis(time: &Cp56Time2a) -> (r: Option<i64>)
    ensures
        r == spec_cp56time2a_millis(*time),
{
    if time.invalid {
        return None;
    }
    let year: i32 = 2000 + time.year as i32;
    let second: u32 = (time.milliseconds / 1000) as u32;
    let millisecond: i64 = (time.milliseconds % 1000) as i64;
    match utc_timestamp_millis(year, time.month as u32, time.day as u32, time.hours as u32, time.minutes as u32, second) {
        Some(base) => base.checked_add(millisecond),
        None => None,
    }
}

} // verus!
