//! Kinds of points and the formats in which a device encodes a point's value.
use vstd::prelude::*;
use crate::address::ProtocolAddress;

verus! {

/// The four kinds of points: telemetry (T), signal (S), control (C) and
/// adjustment (A).
#[derive(Debug, Clone, Copy, PartialEq, Eq, Hash, Structural)]
pub enum PointType {
    Telemetry,
    Signal,
    Control,
    Adjustment,
}

/// How a point's value is laid out in the bytes a device exchanges.
#[derive(Debug, Clone, Copy, PartialEq, Eq)]
pub enum DataFormat {
    Bool,
    UInt16,
    Int16,
    UInt32,
    Int32,
    Float32,
    Float64,
    UInt64,
    Int64,
    String,
}

/// How many 16-bit registers a value of each format occupies (a string counts as
/// one).
pub open spec fn spec_register_count(f: DataFormat) -> u16 {
    match f {
        DataFormat::Bool | DataFormat::UInt16 | DataFormat::Int16 | DataFormat::String => 1,
        DataFormat::UInt32 | DataFormat::Int32 | DataFormat::Float32 => 2,
        DataFormat::Float64 | DataFormat::UInt64 | DataFormat::Int64 => 4,
    }
}

impl DataFormat {
    /// How many 16-bit registers a value of this format occupies.
    pub fn register_count(&self) -> (n: u16)
        ensures
            n == spec_register_count(*self),
            1 <= n <= 4,
    {
        match self {
            DataFormat::Bool | DataFormat::UInt16 | DataFormat::Int16 | DataFormat::String => 1,
            DataFormat::UInt32 | DataFormat::Int32 | DataFormat::Float32 => 2,
            DataFormat::Float64 | DataFormat::UInt64 | DataFormat::Int64 => 4,
        }
    }
}

/// A format that nothing else names is a single unsigned 16-bit register.
impl Default for DataFormat {
    fn default() -> (f: Self)
        ensures
            f == DataFormat::UInt16,
    {
        DataFormat::UInt16
    }
}

/// The order in which the bytes of a multi-register value are sent.
#[derive(Debug, Clone, Copy, PartialEq, Eq)]
pub enum ByteOrder {
    Abcd,
    Dcba,
    Badc,
    Cdab,
}

/// Big-endian order unless configured otherwise.
impl Default for ByteOrder {
    fn default() -> (o: Self)
        ensures
            o == ByteOrder::Abcd,
    {
        ByteOrder::Abcd
    }
}

/// Quality of a point value.
#[derive(Debug, Clone, Copy, PartialEq, Eq, Hash, Structural)]
pub enum Quality {
    Good,
    Bad,
    Uncertain,
    Invalid,
    NotConnected,
    DeviceFailure,
    SensorFailure,
    CommFailure,
    OutOfService,
    Substituted,
    Overflow,
    Underflow,
    ConfigError,
    LastKnown,
}

/// The byte that stands for each quality.
pub open spec fn spec_quality_code(q: Quality) -> u8 {
    match q {
        Quality::Good => 0,
        Quality::Bad => 1,
        Quality::Uncertain => 2,
        Quality::Invalid => 3,
        Quality::NotConnected => 4,
        Quality::DeviceFailure => 5,
        Quality::SensorFailure => 6,
        Quality::CommFailure => 7,
        Quality::OutOfService => 8,
        Quality::Substituted => 9,
        Quality::Overflow => 10,
        Quality::Underflow => 11,
        Quality::ConfigError => 12,
        Quality::LastKnown => 13,
    }
}

/// The quality a byte stands for; unknown bytes read as Bad.
pub open spec fn spec_quality_from_u8(v: u8) -> Quality {
    match v {
        0 => Quality::Good,
        1 => Quality::Bad,
        2 => Quality::Uncertain,
        3 => Quality::Invalid,
        4 => Quality::NotConnected,
        5 => Quality::DeviceFailure,
        6 => Quality::SensorFailure,
        7 => Quality::CommFailure,
        8 => Quality::OutOfService,
        9 => Quality::Substituted,
        10 => Quality::Overflow,
        11 => Quality::Underflow,
        12 => Quality::ConfigError,
        13 => Quality::LastKnown,
        _ => Quality::Bad,
    }
}

impl Quality {
    /// The byte that stands for this quality.
    pub fn code(&self) -> (b: u8)
        ensures
            b == spec_quality_code(*self),
    {
        match self {
            Quality::Good => 0,
            Quality::Bad => 1,
            Quality::Uncertain => 2,
            Quality::Invalid => 3,
            Quality::NotConnected => 4,
            Quality::DeviceFailure => 5,
            Quality::SensorFailure => 6,
            Quality::CommFailure => 7,
            Quality::OutOfService => 8,
            Quality::Substituted => 9,
            Quality::Overflow => 10,
            Quality::Underflow => 11,
            Quality::ConfigError => 12,
            Quality::LastKnown => 13,
        }
    }
}

/// The quality a byte stands for; unknown bytes read as Bad.
pub fn quality_from_u8(v: u8) -> (q: Quality)
    ensures
        q == spec_quality_from_u8(v),
{
    match v {
        0 => Quality::Good,
        1 => Quality::Bad,
        2 => Quality::Uncertain,
        3 => Quality::Invalid,
        4 => Quality::NotConnected,
        5 => Quality::DeviceFailure,
        6 => Quality::SensorFailure,
        7 => Quality::CommFailure,
        8 => Quality::OutOfService,
        9 => Quality::Substituted,
        10 => Quality::Overflow,
        11 => Quality::Underflow,
        12 => Quality::ConfigError,
        13 => Quality::LastKnown,
        _ => Quality::Bad,
    }
}

/// Every quality survives being stored as its byte.
pub proof fn lemma_quality_code_roundtrip(q: Quality)
    ensures
        spec_quality_from_u8(spec_quality_code(q)) == q,
{
}

/// A configured point: its id, kind, name and address. (Value transforms are
/// applied by the caller.)
#[derive(Debug, Clone)]
pub struct PointConfig {
    pub id: u32,
    pub point_type: PointType,
    pub name: Option<String>,
    pub address: ProtocolAddress,
    pub enabled: bool,
}

} // verus!
