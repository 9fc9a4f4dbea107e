//! Channel logging: packet metadata, error contexts, the kinds of log events,
//! and the configuration that decides which events are logged.
use vstd::prelude::*;
use crate::text::{push_char, push_decimal, spec_decimal, string_from_chars};

verus! {

// ── Packets and errors ─────────────────────────────────────────────────────────

/// Direction of a raw packet.
#[derive(Debug, Clone, Copy, PartialEq, Eq, Hash)]
pub enum PacketDirection {
    /// Sent to the device.
    Send,
    /// Received from the device.
    Receive,
}

/// The arrow shown for a direction: ">>>" when sending, "<<<" when receiving.
pub open spec fn spec_arrow(d: PacketDirection) -> Seq<char> {
    match d {
        PacketDirection::Send => seq!['>', '>', '>'],
        PacketDirection::Receive => seq!['<', '<', '<'],
    }
}

impl PacketDirection {
    /// The arrow shown for this direction.
    pub fn arrow(&self) -> (s: String)
        ensures
            s@ == spec_arrow(*self),
    {
        let cs: [char; 3] = match self {
            PacketDirection::Send => ['>', '>', '>'],
            PacketDirection::Receive => ['<', '<', '<'],
        };
        assert(cs@ =~= spec_arrow(*self));
        string_from_chars(cs.as_slice())
    }
}

/// Modbus transport.
#[derive(Debug, Clone, Copy, PartialEq, Eq, Hash)]
pub enum ModbusTransportType {
    Tcp,
    Rtu,
    Ascii,
}

/// Protocol-specific details of a raw packet.
#[derive(Debug, Clone)]
pub enum PacketMetadata {
    Modbus {
        transport: ModbusTransportType,
        slave_id: u8,
        function_code: u8,
        transaction_id: Option<u16>,
        start_address: Option<u16>,
        quantity: Option<u16>,
    },
    Iec104 { asdu_type: u8, cause_of_tx: u8, common_addr: u16 },
    OpcUa { message_type: String, request_id: u32 },
    J1939 { pgn: u32, source: u8, destination: u8 },
    Gpio,
    Virtual,
    Other { protocol: String },
}

/// The protocol name shown for packet metadata.
pub open spec fn spec_protocol_name(m: PacketMetadata) -> Seq<char> {
    match m {
        PacketMetadata::Modbus { transport, .. } => match transport {
            ModbusTransportType::Tcp => seq!['m', 'o', 'd', 'b', 'u', 's', '-', 't', 'c', 'p'],
            ModbusTransportType::Rtu => seq!['m', 'o', 'd', 'b', 'u', 's', '-', 'r', 't', 'u'],
            ModbusTransportType::Ascii => seq![
                'm', 'o', 'd', 'b', 'u', 's', '-', 'a', 's', 'c', 'i', 'i',
            ],
        },
        PacketMetadata::Iec104 { .. } => seq!['i', 'e', 'c', '1', '0', '4'],
        PacketMetadata::OpcUa { .. } => seq!['o', 'p', 'c', 'u', 'a'],
        PacketMetadata::J1939 { .. } => seq!['j', '1', '9', '3', '9'],
        PacketMetadata::Gpio => seq!['g', 'p', 'i', 'o'],
        PacketMetadata::Virtual => seq!['v', 'i', 'r', 't', 'u', 'a', 'l'],
        PacketMetadata::Other { protocol } => protocol@,
    }
}

fn text_of<const N: usize>(cs: [char; N]) -> (s: String)
    ensures
        s@ == cs@,
{
    string_from_chars(cs.as_slice())
}

impl PacketMetadata {
    /// Metadata of a Modbus TCP packet with no transaction id or address range.
    pub fn modbus_tcp(slave_id: u8, function_code: u8) -> (m: Self)
        ensures
            m == (PacketMetadata::Modbus {
                transport: ModbusTransportType::Tcp,
                slave_id,
                function_code,
                transaction_id: None,
                start_address: None,
                quantity: None,
            }),
    {
        PacketMetadata::Modbus {
            transport: ModbusTransportType::Tcp,
            slave_id,
            function_code,
            transaction_id: None,
            start_address: None,
            quantity: None,
        }
    }

    /// Metadata of an IEC 104 packet.
    pub fn iec104(asdu_type: u8, cause_of_tx: u8, common_addr: u16) -> (m: Self)
        ensures
            m == (PacketMetadata::Iec104 { asdu_type, cause_of_tx, common_addr }),
    {
        PacketMetadata::Iec104 { asdu_type, cause_of_tx, common_addr }
    }

    /// The protocol name shown for this packet.
    pub fn protocol_name(&self) -> (s: String)
        ensures
            s@ == spec_protocol_name(*self),
    {
        match self {
            PacketMetadata::Modbus { transport, .. } => match transport {
                ModbusTransportType::Tcp => text_of(['m', 'o', 'd', 'b', 'u', 's', '-', 't', 'c', 'p']),
                ModbusTransportType::Rtu => text_of(['m', 'o', 'd', 'b', 'u', 's', '-', 'r', 't', 'u']),
                ModbusTransportType::Ascii => text_of(
                    ['m', 'o', 'd', 'b', 'u', 's', '-', 'a', 's', 'c', 'i', 'i'],
                ),
            },
            PacketMetadata::Iec104 { .. } => text_of(['i', 'e', 'c', '1', '0', '4']),
            PacketMetadata::OpcUa { .. } => text_of(['o', 'p', 'c', 'u', 'a']),
            PacketMetadata::J1939 { .. } => text_of(['j', '1', '9', '3', '9']),
            PacketMetadata::Gpio => text_of(['g', 'p', 'i', 'o']),
            PacketMetadata::Virtual => text_of(['v', 'i', 'r', 't', 'u', 'a', 'l']),
            PacketMetadata::Other { protocol } => protocol.clone(),
        }
    }
}

/// Where an error happened.
#[derive(Debug, Clone, Copy, PartialEq, Eq, Hash)]
pub enum ErrorContext {
    Connection,
    Read,
    WriteControl,
    WriteAdjustment,
    Polling,
    /// Polling of a register range failed.
    PollingSegment { start: u16, end: u16 },
    Protocol,
    Unknown,
}

/// The text shown for an error context.
pub open spec fn spec_error_context_text(c: ErrorContext) -> Seq<char> {
    match c {
        ErrorContext::Connection => seq!['c', 'o', 'n', 'n', 'e', 'c', 't', 'i', 'o', 'n'],
        ErrorContext::Read => seq!['r', 'e', 'a', 'd'],
        ErrorContext::WriteControl => seq![
            'w', 'r', 'i', 't', 'e', '_', 'c', 'o', 'n', 't', 'r', 'o', 'l',
        ],
        ErrorContext::WriteAdjustment => seq![
            'w', 'r', 'i', 't', 'e', '_', 'a', 'd', 'j', 'u', 's', 't', 'm', 'e', 'n', 't',
        ],
        ErrorContext::Polling => seq!['p', 'o', 'l', 'l', 'i', 'n', 'g'],
        ErrorContext::PollingSegment { start, end } => seq!['p', 'o', 'l', 'l', 'i', 'n', 'g', ' ', '@']
            + spec_decimal(start as nat) + seq!['-'] + spec_decimal(end as nat),
        ErrorContext::Protocol => seq!['p', 'r', 'o', 't', 'o', 'c', 'o', 'l'],
        ErrorContext::Unknown => seq!['u', 'n', 'k', 'n', 'o', 'w', 'n'],
    }
}

impl ErrorContext {
    /// The text shown for this context ("polling @start-end" for a register range).
    pub fn text(&self) -> (s: String)
        ensures
            s@ == spec_error_context_text(*self),
    {
        match self {
            ErrorContext::Connection => text_of(['c', 'o', 'n', 'n', 'e', 'c', 't', 'i', 'o', 'n']),
            ErrorContext::Read => text_of(['r', 'e', 'a', 'd']),
            ErrorContext::WriteControl => text_of(
                ['w', 'r', 'i', 't', 'e', '_', 'c', 'o', 'n', 't', 'r', 'o', 'l'],
            ),
            ErrorContext::WriteAdjustment => text_of(
                ['w', 'r', 'i', 't', 'e', '_', 'a', 'd', 'j', 'u', 's', 't', 'm', 'e', 'n', 't'],
            ),
            ErrorContext::Polling => text_of(['p', 'o', 'l', 'l', 'i', 'n', 'g']),
            ErrorContext::PollingSegment { start, end } => {
                let mut s = text_of(['p', 'o', 'l', 'l', 'i', 'n', 'g', ' ', '@']);
                push_decimal(&mut s, *start as u64);
                push_char(&mut s, '-');
                push_decimal(&mut s, *end as u64);
                s
            },
            ErrorContext::Protocol => text_of(['p', 'r', 'o', 't', 'o', 'c', 'o', 'l']),
            ErrorContext::Unknown => text_of(['u', 'n', 'k', 'n', 'o', 'w', 'n']),
        }
    }
}

// ── Event types and sets of them ───────────────────────────────────────────────

/// The kinds of log events, for filtering.
#[derive(Debug, Clone, Copy, PartialEq, Eq, Hash, Structural)]
pub enum LogEventType {
    Connected,
    Disconnected,
    ReadOperation,
    PollCycle,
    ControlWrite,
    AdjustmentWrite,
    Error,
    ReconnectAttempt,
    ReconnectSuccess,
    StateChanged,
    RawPacket,
    PointValues,
}

/// A set of event kinds.
#[derive(Debug)]
pub struct LogEventSet {
    events: Vec<LogEventType>,
}

impl View for LogEventSet {
    type V = Set<LogEventType>;

    closed spec fn view(&self) -> Set<LogEventType> {
        self.events@.to_set()
    }
}

impl LogEventSet {
    #[verifier::type_invariant]
    spec fn inv(self) -> bool {
        self.events@.no_duplicates()
    }

    /// The empty set.
    pub fn new() -> (s: Self)
        ensures
            s@ == Set::<LogEventType>::empty(),
    {
        let s = LogEventSet { events: Vec::new() };
        assert(s.events@.to_set() =~= Set::<LogEventType>::empty());
        s
    }

    /// Whether `e` is in the set.
    pub fn contains(&self, e: &LogEventType) -> (b: bool)
        ensures
            b == self@.contains(*e),
    {
        let mut i: usize = 0;
        while i < self.events.len()
            invariant
                i <= self.events@.len(),
                forall|j: int| 0 <= j < i ==> self.events@[j] != *e,
            decreases self.events@.len() - i,
        {
            if self.events[i] == *e {
                assert(self.events@.to_set().contains(*e));
                return true;
            }
            i += 1;
        }
        assert(!self.events@.to_set().contains(*e)) by {
            if self.events@.contains(*e) {
                let j = choose|j: int| 0 <= j < self.events@.len() && self.events@[j] == *e;
                assert(self.events@[j] != *e);
            }
        }
        false
    }

    /// Add `e` to the set.
    pub fn insert(&mut self, e: LogEventType)
        ensures
            final(self)@ == old(self)@.insert(e),
    {
        proof {
            use_type_invariant(&*self);
        }
        if !self.contains(&e) {
            let ghost before = self.events@;
            let mut events: Vec<LogEventType> = Vec::new();
            std::mem::swap(&mut events, &mut self.events);
            events.push(e);
            assert(events@ == before.push(e));
            assert(events@.no_duplicates()) by {
                assert forall|a: int, b: int|
                    0 <= a < events@.len() && 0 <= b < events@.len() && a != b implies events@[a]
                    != events@[b] by {
                    if a == before.len() as int {
                        assert(before.contains(events@[b]));
                    } else if b == before.len() as int {
                        assert(before.contains(events@[a]));
                    }
                }
            }
            self.events = events;
            proof {
                before.lemma_push_to_set_commute(e);
            }
        }
        assert(self@ =~= old(self)@.insert(e));
    }

    /// The number of kinds in the set.
    pub fn len(&self) -> (n: usize)
        ensures
            n == self@.len(),
    {
        proof {
            use_type_invariant(self);
            self.events@.unique_seq_to_set();
        }
        self.events.len()
    }

    /// A set holding exactly the given kinds.
    pub fn from_events(es: &[LogEventType]) -> (s: Self)
        ensures
            s@ == es@.to_set(),
    {
        let mut s = LogEventSet::new();
        let mut i: usize = 0;
        while i < es.len()
            invariant
                i <= es@.len(),
                s@ == es@.take(i as int).to_set(),
            decreases es@.len() - i,
        {
            s.insert(es[i]);
            proof {
                assert(es@.take(i + 1) =~= es@.take(i as int).push(es@[i as int]));
                es@.take(i as int).lemma_push_to_set_commute(es@[i as int]);
            }
            i += 1;
        }
        assert(es@.take(es@.len() as int) =~= es@);
        s
    }
}

impl Clone for LogEventSet {
    fn clone(&self) -> (c: Self)
        ensures
            c@ == self@,
    {
        proof {
            use_type_invariant(self);
        }
        let mut events: Vec<LogEventType> = Vec::with_capacity(self.events.len());
        let mut i: usize = 0;
        while i < self.events.len()
            invariant
                i <= self.events@.len(),
                events@ == self.events@.take(i as int),
            decreases self.events@.len() - i,
        {
            events.push(self.events[i]);
            i += 1;
            assert(events@ =~= self.events@.take(i as int));
        }
        assert(events@ =~= self.events@);
        LogEventSet { events }
    }
}

/// Every kind of event.
pub open spec fn spec_all_events() -> Set<LogEventType> {
    Set::full()
}

/// The kinds logged by default: all but read operations, poll cycles and raw
/// packets.
pub open spec fn spec_default_events() -> Set<LogEventType> {
    Set::new(
        |e: LogEventType|
            e != LogEventType::ReadOperation && e != LogEventType::PollCycle && e
                != LogEventType::RawPacket,
    )
}

/// Errors and connection changes: connected, disconnected, error, reconnect
/// attempt and success, state change.
pub open spec fn spec_error_and_connection_events() -> Set<LogEventType> {
    set![
        LogEventType::Connected,
        LogEventType::Disconnected,
        LogEventType::Error,
        LogEventType::ReconnectAttempt,
        LogEventType::ReconnectSuccess,
        LogEventType::StateChanged,
    ]
}

impl LogEventType {
    /// All twelve kinds.
    pub fn all() -> (s: LogEventSet)
        ensures
            s@ == spec_all_events(),
            s@.len() == 12,
    {
        let es: [LogEventType; 12] = [
            LogEventType::Connected,
            LogEventType::Disconnected,
            LogEventType::ReadOperation,
            LogEventType::PollCycle,
            LogEventType::ControlWrite,
            LogEventType::AdjustmentWrite,
            LogEventType::Error,
            LogEventType::ReconnectAttempt,
            LogEventType::ReconnectSuccess,
            LogEventType::StateChanged,
            LogEventType::RawPacket,
            LogEventType::PointValues,
        ];
        let s = LogEventSet::from_events(es.as_slice());
        proof {
            assert forall|e: LogEventType| s@.contains(e) by {
                let k: int = match e {
                    LogEventType::Connected => 0,
                    LogEventType::Disconnected => 1,
                    LogEventType::ReadOperation => 2,
                    LogEventType::PollCycle => 3,
                    LogEventType::ControlWrite => 4,
                    LogEventType::AdjustmentWrite => 5,
                    LogEventType::Error => 6,
                    LogEventType::ReconnectAttempt => 7,
                    LogEventType::ReconnectSuccess => 8,
                    LogEventType::StateChanged => 9,
                    LogEventType::RawPacket => 10,
                    LogEventType::PointValues => 11,
                };
                assert(es@[k] == e);
            }
            assert(s@ =~= spec_all_events());
            assert(es@.no_duplicates());
            es@.unique_seq_to_set();
        }
        s
    }

    /// The default kinds (point values included; read operations, poll cycles and
    /// raw packets left out).
    pub fn default_set() -> (s: LogEventSet)
        ensures
            s@ == spec_default_events(),
    {
        let es: [LogEventType; 9] = [
            LogEventType::Connected,
            LogEventType::Disconnected,
            LogEventType::ControlWrite,
            LogEventType::AdjustmentWrite,
            LogEventType::Error,
            LogEventType::ReconnectAttempt,
            LogEventType::ReconnectSuccess,
            LogEventType::StateChanged,
            LogEventType::PointValues,
        ];
        let s = LogEventSet::from_events(es.as_slice());
        proof {
            assert forall|e: LogEventType| spec_default_events().contains(e) implies s@.contains(e) by {
                let k: int = match e {
                    LogEventType::Connected => 0,
                    LogEventType::Disconnected => 1,
                    LogEventType::ControlWrite => 2,
                    LogEventType::AdjustmentWrite => 3,
                    LogEventType::Error => 4,
                    LogEventType::ReconnectAttempt => 5,
                    LogEventType::ReconnectSuccess => 6,
                    LogEventType::StateChanged => 7,
                    _ => 8,
                };
                assert(es@[k] == e);
            }
            assert(s@ =~= spec_default_events());
        }
        s
    }

    /// Errors and connection changes.
    pub fn errors_and_connections() -> (s: LogEventSet)
        ensures
            s@ == spec_error_and_connection_events(),
    {
        let es: [LogEventType; 6] = [
            LogEventType::Connected,
            LogEventType::Disconnected,
            LogEventType::Error,
            LogEventType::ReconnectAttempt,
            LogEventType::ReconnectSuccess,
            LogEventType::StateChanged,
        ];
        let s = LogEventSet::from_events(es.as_slice());
        proof {
            assert(es@[0] == LogEventType::Connected);
            assert(es@[1] == LogEventType::Disconnected);
            assert(es@[2] == LogEventType::Error);
            assert(es@[3] == LogEventType::ReconnectAttempt);
            assert(es@[4] == LogEventType::ReconnectSuccess);
            assert(es@[5] == LogEventType::StateChanged);
            assert(s@ =~= spec_error_and_connection_events());
        }
        s
    }
}

// ── Channel log configuration ──────────────────────────────────────────────────

/// Which events a channel logs.
#[derive(Debug, Clone)]
pub struct ChannelLogConfig {
    enabled_events: LogEventSet,
    log_successful_reads: bool,
    log_successful_writes: bool,
    poll_cycle_sample_rate: u32,
    log_raw_packets: bool,
    max_packet_size: usize,
}

impl ChannelLogConfig {
    /// The kinds of events enabled.
    pub closed spec fn enabled(self) -> Set<LogEventType> {
        self.enabled_events@
    }

    /// Whether successful reads are logged.
    pub closed spec fn logs_successful_reads(self) -> bool {
        self.log_successful_reads
    }

    /// Whether successful writes are logged.
    pub closed spec fn logs_successful_writes(self) -> bool {
        self.log_successful_writes
    }

    /// One poll cycle in this many is logged (0: none).
    pub closed spec fn sample_rate(self) -> u32 {
        self.poll_cycle_sample_rate
    }

    /// Whether raw packets are logged.
    pub closed spec fn logs_raw_packets(self) -> bool {
        self.log_raw_packets
    }

    /// Longest raw packet logged in full (0: no limit).
    pub closed spec fn packet_limit(self) -> usize {
        self.max_packet_size
    }
}

impl Default for ChannelLogConfig {
    fn default() -> (c: Self)
        ensures
            c.enabled() == spec_default_events(),
            !c.logs_successful_reads(),
            c.logs_successful_writes(),
            c.sample_rate() == 1,
            !c.logs_raw_packets(),
            c.packet_limit() == 0,
    {
        ChannelLogConfig {
            enabled_events: LogEventType::default_set(),
            log_successful_reads: false,
            log_successful_writes: true,
            poll_cycle_sample_rate: 1,
            log_raw_packets: false,
            max_packet_size: 0,
        }
    }
}

/// A log event as the filter sees it: its kind and, for reads and writes,
/// whether the operation succeeded.
#[derive(Debug, Clone, Copy, PartialEq, Eq)]
pub enum LoggedEvent {
    Connected,
    Disconnected,
    ReadOperation { ok: bool },
    PollCycleCompleted,
    ControlWrite { ok: bool },
    AdjustmentWrite { ok: bool },
    Error,
    ReconnectAttempt,
    ReconnectSuccess,
    StateChanged,
    RawPacket,
    PointValues,
}

/// The kind of a logged event.
pub open spec fn spec_event_type(e: LoggedEvent) -> LogEventType {
    match e {
        LoggedEvent::Connected => LogEventType::Connected,
        LoggedEvent::Disconnected => LogEventType::Disconnected,
        LoggedEvent::ReadOperation { .. } => LogEventType::ReadOperation,
        LoggedEvent::PollCycleCompleted => LogEventType::PollCycle,
        LoggedEvent::ControlWrite { .. } => LogEventType::ControlWrite,
        LoggedEvent::AdjustmentWrite { .. } => LogEventType::AdjustmentWrite,
        LoggedEvent::Error => LogEventType::Error,
        LoggedEvent::ReconnectAttempt => LogEventType::ReconnectAttempt,
        LoggedEvent::ReconnectSuccess => LogEventType::ReconnectSuccess,
        LoggedEvent::StateChanged => LogEventType::StateChanged,
        LoggedEvent::RawPacket => LogEventType::RawPacket,
        LoggedEvent::PointValues => LogEventType::PointValues,
    }
}

/// Whether a configuration logs an event: its kind must be enabled; successful
/// reads and writes only when those are asked for; raw packets only when raw
/// packet logging is on.
pub open spec fn spec_should_log(c: ChannelLogConfig, e: LoggedEvent) -> bool {
    &&& c.enabled().contains(spec_event_type(e))
    &&& match e {
        LoggedEvent::ReadOperation { ok } => !ok || c.logs_successful_reads(),
        LoggedEvent::ControlWrite { ok } => !ok || c.logs_successful_writes(),
        LoggedEvent::AdjustmentWrite { ok } => !ok || c.logs_successful_writes(),
        LoggedEvent::RawPacket => c.logs_raw_packets(),
        _ => true,
    }
}

/// Event kinds that a logged event can have.
fn event_type(e: &LoggedEvent) -> (t: LogEventType)
    ensures
        t == spec_event_type(*e),
{
    match e {
        LoggedEvent::Connected => LogEventType::Connected,
        LoggedEvent::Disconnected => LogEventType::Disconnected,
        LoggedEvent::ReadOperation { .. } => LogEventType::ReadOperation,
        LoggedEvent::PollCycleCompleted => LogEventType::PollCycle,
        LoggedEvent::ControlWrite { .. } => LogEventType::ControlWrite,
        LoggedEvent::AdjustmentWrite { .. } => LogEventType::AdjustmentWrite,
        LoggedEvent::Error => LogEventType::Error,
        LoggedEvent::ReconnectAttempt => LogEventType::ReconnectAttempt,
        LoggedEvent::ReconnectSuccess => LogEventType::ReconnectSuccess,
        LoggedEvent::StateChanged => LogEventType::StateChanged,
        LoggedEvent::RawPacket => LogEventType::RawPacket,
        LoggedEvent::PointValues => LogEventType::PointValues,
    }
}

impl ChannelLogConfig {
    /// The default configuration.
    pub fn new() -> (c: Self)
        ensures
            c.enabled() == spec_default_events(),
            !c.logs_successful_reads(),
            c.logs_successful_writes(),
            c.sample_rate() == 1,
            !c.logs_raw_packets(),
            c.packet_limit() == 0,
    {
        ChannelLogConfig::default()
    }

    /// Log everything, successful reads and raw packets included.
    pub fn all() -> (c: Self)
        ensures
            c.enabled() == spec_all_events(),
            c.logs_successful_reads(),
            c.logs_successful_writes(),
            c.sample_rate() == 1,
            c.logs_raw_packets(),
            c.packet_limit() == 0,
    {
        ChannelLogConfig {
            enabled_events: LogEventType::all(),
            log_successful_reads: true,
            log_successful_writes: true,
            poll_cycle_sample_rate: 1,
            log_raw_packets: true,
            max_packet_size: 0,
        }
    }

    /// Log errors and connection changes only.
    pub fn errors_only() -> (c: Self)
        ensures
            c.enabled() == spec_error_and_connection_events(),
            !c.logs_successful_reads(),
            !c.logs_successful_writes(),
            c.sample_rate() == 0,
            !c.logs_raw_packets(),
            c.packet_limit() == 0,
    {
        ChannelLogConfig {
            enabled_events: LogEventType::errors_and_connections(),
            log_successful_reads: false,
            log_successful_writes: false,
            poll_cycle_sample_rate: 0,
            log_raw_packets: false,
            max_packet_size: 0,
        }
    }

    /// Log nothing.
    pub fn disabled() -> (c: Self)
        ensures
            c.enabled() == Set::<LogEventType>::empty(),
            !c.logs_successful_reads(),
            !c.logs_successful_writes(),
            c.sample_rate() == 0,
            !c.logs_raw_packets(),
            c.packet_limit() == 0,
    {
        ChannelLogConfig {
            enabled_events: LogEventSet::new(),
            log_successful_reads: false,
            log_successful_writes: false,
            poll_cycle_sample_rate: 0,
            log_raw_packets: false,
            max_packet_size: 0,
        }
    }

    /// The same configuration with `event_type` enabled as well.
    pub fn enable_event(self, event_type: LogEventType) -> (c: Self)
        ensures
            c.enabled() == self.enabled().insert(event_type),
            c.logs_successful_reads() == self.logs_successful_reads(),
            c.logs_successful_writes() == self.logs_successful_writes(),
            c.sample_rate() == self.sample_rate(),
            c.logs_raw_packets() == self.logs_raw_packets(),
            c.packet_limit() == self.packet_limit(),
    {
        let mut c = self;
        c.enabled_events.insert(event_type);
        c
    }

    /// The same configuration with raw packet logging set to `enable`; enabling it
    /// also enables the raw packet event kind.
    pub fn with_raw_packets(self, enable: bool) -> (c: Self)
        ensures
            c.logs_raw_packets() == enable,
            c.enabled() == (if enable {
                self.enabled().insert(LogEventType::RawPacket)
            } else {
                self.enabled()
            }),
            c.logs_successful_reads() == self.logs_successful_reads(),
            c.logs_successful_writes() == self.logs_successful_writes(),
            c.sample_rate() == self.sample_rate(),
            c.packet_limit() == self.packet_limit(),
    {
        let mut c = self;
        c.log_raw_packets = enable;
        if enable && !c.enabled_events.contains(&LogEventType::RawPacket) {
            c.enabled_events.insert(LogEventType::RawPacket);
        }
        proof {
            if enable {
                assert(c.enabled_events@ =~= self.enabled_events@.insert(LogEventType::RawPacket));
            }
        }
        c
    }

    /// Whether events of `event_type` are enabled.
    pub fn is_enabled(&self, event_type: LogEventType) -> (b: bool)
        ensures
            b == self.enabled().contains(event_type),
    {
        self.enabled_events.contains(&event_type)
    }

    /// Whether raw packets are logged: the flag is set and the kind enabled.
    pub fn should_log_raw_packets(&self) -> (b: bool)
        ensures
            b == (self.logs_raw_packets() && self.enabled().contains(LogEventType::RawPacket)),
    {
        self.log_raw_packets && self.enabled_events.contains(&LogEventType::RawPacket)
    }

    /// Whether this configuration logs `event`.
    pub fn should_log(&self, event: &LoggedEvent) -> (b: bool)
        ensures
            b == spec_should_log(*self, *event),
    {
        let t = event_type(event);
        if !self.enabled_events.contains(&t) {
            return false;
        }
        match event {
            LoggedEvent::ReadOperation { ok } => !*ok || self.log_successful_reads,
            LoggedEvent::ControlWrite { ok } => !*ok || self.log_successful_writes,
            LoggedEvent::AdjustmentWrite { ok } => !*ok || self.log_successful_writes,
            LoggedEvent::RawPacket => self.log_raw_packets,
            _ => true,
        }
    }

    /// Whether the poll cycle numbered `count` (counting from 0) is logged: poll
    /// cycles must be enabled; a sample rate of 0 logs none, 1 logs all, `n` logs
    /// every `n`-th starting with the first.
    pub fn should_log_poll_cycle(&self, count: u64) -> (b: bool)
        ensures
            b == (self.enabled().contains(LogEventType::PollCycle) && self.sample_rate() != 0 && (
            self.sample_rate() == 1 || count % (self.sample_rate() as u64) == 0)),
    {
        if !self.enabled_events.contains(&LogEventType::PollCycle) {
            return false;
        }
        let rate = self.poll_cycle_sample_rate;
        if rate == 0 {
            return false;
        }
        if rate == 1 {
            return true;
        }
        count % (rate as u64) == 0
    }

    /// A raw packet as it is logged: cut to the packet size limit when one is set.
    pub fn truncate_packet(&self, data: Vec<u8>) -> (r: Vec<u8>)
        ensures
            r@ == (if self.packet_limit() > 0 && data@.len() > self.packet_limit() {
                data@.take(self.packet_limit() as int)
            } else {
                data@
            }),
    {
        let mut data = data;
        if self.max_packet_size > 0 && data.len() > self.max_packet_size {
            data.truncate(self.max_packet_size);
        }
        data
    }
}

} // verus!
