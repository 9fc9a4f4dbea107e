//! IEC 61850 MMS channels: configuration and the MMS invoke id sequence.
use vstd::prelude::*;
use std::time::Duration;
use crate::duration::{duration_from_millis, millis_duration};
use crate::iec61850_mms::{MmsData, MmsValue};
use crate::poll::PointFailure;
use crate::text::{push_decimal, spec_decimal, string_from_chars};

verus! {

/// The default connect timeout (ms).
pub fn default_connect_timeout_ms() -> (t: u64)
    ensures
        t == 10_000,
{
    10_000
}

/// The default per-request timeout (ms).
pub fn default_request_timeout_ms() -> (t: u64)
    ensures
        t == 5_000,
{
    5_000
}

/// Channel parameters, as configured.
#[derive(Debug, Clone)]
pub struct Iec61850ParamsConfig {
    /// Server address, e.g. "192.168.1.10:102".
    pub address: String,
    pub connect_timeout_ms: u64,
    pub request_timeout_ms: u64,
}

impl Iec61850ParamsConfig {
    /// Parameters for `address` with the default timeouts.
    pub fn with_defaults(address: String) -> (c: Self)
        ensures
            c.address == address,
            c.connect_timeout_ms == 10_000,
            c.request_timeout_ms == 5_000,
    {
        Iec61850ParamsConfig {
            address,
            connect_timeout_ms: default_connect_timeout_ms(),
            request_timeout_ms: default_request_timeout_ms(),
        }
    }

    /// The connect timeout as a duration.
    pub fn connect_timeout(&self) -> (d: Duration)
        ensures
            d == millis_duration(self.connect_timeout_ms),
    {
        duration_from_millis(self.connect_timeout_ms)
    }

    /// The request timeout as a duration.
    pub fn request_timeout(&self) -> (d: Duration)
        ensures
            d == millis_duration(self.request_timeout_ms),
    {
        duration_from_millis(self.request_timeout_ms)
    }
}

/// The invoke id to use now, and the one after it: ids run 1..=255 and then
/// start again at 1.
pub fn next_invoke_id(current: u8) -> (r: (u8, u8))
    ensures
        r.0 == current,
        r.1 == (if current == 255 { 1 } else { current + 1 }),
{
    let next = if current == 255 {
        1
    } else {
        current + 1
    };
    (current, next)
}

/// From any id other than 0, the sequence never yields 0.
pub proof fn lemma_invoke_id_never_zero(current: u8)
    requires
        current != 0,
    ensures
        (if current == 255 { 1u8 } else { (current + 1) as u8 }) != 0,
{
}


/// How the read of one variable ended.
#[derive(Debug)]
pub enum ReadOutcome {
    /// The server answered with a value or a data-access error.
    Answer(MmsValue),
    /// No answer within the request timeout.
    TimedOut,
    /// The connection failed; the text says how.
    LinkFailed(String),
}

/// What a poll does after reading one point.
#[derive(Debug)]
pub enum ReadStep {
    /// The point has this value; go on with the next point.
    Keep(MmsValue),
    /// The point failed; the session is still good, go on.
    Skip(PointFailure),
    /// The point failed and the session must be dropped: stop the poll and
    /// reconnect.
    Stop(PointFailure),
}

/// "MMS data-access error <code>"
pub open spec fn spec_access_error_text(code: u8) -> Seq<char> {
    seq!['M', 'M', 'S', ' ', 'd', 'a', 't', 'a', '-', 'a', 'c', 'c', 'e', 's', 's', ' ', 'e', 'r', 'r', 'o', 'r', ' ']
        + spec_decimal(code as nat)
}

/// "read timeout"
pub open spec fn spec_timeout_text() -> Seq<char> {
    seq!['r', 'e', 'a', 'd', ' ', 't', 'i', 'm', 'e', 'o', 'u', 't']
}

/// The step after reading a point: a value is kept; a data-access error skips
/// the point; a timeout or a link failure stops the poll.
pub fn read_step(point_id: u32, outcome: ReadOutcome) -> (r: ReadStep)
    ensures
        match outcome {
            ReadOutcome::Answer(v) => match v@ {
                MmsData::Failure(code) => r matches ReadStep::Skip(f) && f.point_id == point_id && f.error@
                    == spec_access_error_text(code),
                _ => r matches ReadStep::Keep(x) && x@ == v@,
            },
            ReadOutcome::TimedOut => r matches ReadStep::Stop(f) && f.point_id == point_id && f.error@
                == spec_timeout_text(),
            ReadOutcome::LinkFailed(e) => r matches ReadStep::Stop(f) && f.point_id == point_id && f.error@
                == e@,
        },
{
    match outcome {
        ReadOutcome::Answer(v) => match v {
            MmsValue::Failure(code) => {
                let mut t = string_from_chars(
                    [
                        'M', 'M', 'S', ' ', 'd', 'a', 't', 'a', '-', 'a', 'c', 'c', 'e', 's', 's', ' ', 'e',
                        'r', 'r', 'o', 'r', ' ',
                    ].as_slice(),
                );
                push_decimal(&mut t, code as u64);
                assert(t@ =~= spec_access_error_text(code));
                ReadStep::Skip(PointFailure { point_id, error: t })
            },
            other => ReadStep::Keep(other),
        },
        ReadOutcome::TimedOut => {
            let t = string_from_chars(['r', 'e', 'a', 'd', ' ', 't', 'i', 'm', 'e', 'o', 'u', 't'].as_slice());
            assert(t@ =~= spec_timeout_text());
            ReadStep::Stop(PointFailure { point_id, error: t })
        },
        ReadOutcome::LinkFailed(e) => ReadStep::Stop(PointFailure { point_id, error: e }),
    }
}

} // verus!
