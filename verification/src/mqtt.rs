//! MQTT channels: configuration, subscriptions and the reading of the broker
//! URL. (JSON mapping rules are held by the caller.)
use vstd::prelude::*;
use std::time::Duration;
use crate::duration::{duration_from_millis, duration_from_secs, millis_duration, secs_duration};
use crate::text::{
    chars_of, clone_opt_string, find_char, parse_uint, slice_range, spec_find_from, spec_parse_uint,
    spec_starts_with, starts_with, string_from_chars,
};

verus! {

/// A topic subscription.
#[derive(Debug, Clone)]
pub struct MqttSubscription {
    /// Topic pattern (wildcards `+` and `#` allowed).
    pub topic: String,
    /// Quality of service: 0, 1 or 2.
    pub qos: u8,
}

/// The default quality of service: 1.
pub fn default_qos() -> (q: u8)
    ensures
        q == 1,
{
    1
}

/// The default keep-alive interval (s).
pub fn default_keep_alive() -> (t: u64)
    ensures
        t == 30,
{
    30
}

/// The default connect timeout (ms).
pub fn default_connect_timeout_ms() -> (t: u64)
    ensures
        t == 5000,
{
    5000
}

/// The default reconnect delay (ms).
pub fn default_reconnect_delay_ms() -> (t: u64)
    ensures
        t == 5000,
{
    5000
}

/// Whether a character is a lower-case hex digit.
pub open spec fn spec_lower_hex(c: char) -> bool {
    ('0' <= c && c <= '9') || ('a' <= c && c <= 'f')
}

/// `uuid::Uuid::new_v4().as_simple()` as text: a random UUID, 32 lower-case hex
/// digits. Which UUID comes out is chance.
#[verifier::external_body]
fn random_uuid_simple() -> (s: String)
    ensures
        s@.len() == 32,
        forall|i: int| 0 <= i < 32 ==> spec_lower_hex(#[trigger] s@[i]),
{
    uuid::Uuid::new_v4().as_simple().to_string()
}

/// "comsrv_"
pub open spec fn spec_client_prefix() -> Seq<char> {
    seq!['c', 'o', 'm', 's', 'r', 'v', '_']
}

/// A fresh client id: "comsrv_" and a random UUID in 32 hex digits.
pub fn default_client_id() -> (s: String)
    ensures
        s@.len() == 39,
        s@.take(7) == spec_client_prefix(),
        forall|i: int| 7 <= i < 39 ==> spec_lower_hex(#[trigger] s@[i]),
{
    let u = random_uuid_simple();
    let uc = chars_of(u.as_str());
    let mut cs: Vec<char> = Vec::new();
    cs.push('c');
    cs.push('o');
    cs.push('m');
    cs.push('s');
    cs.push('r');
    cs.push('v');
    cs.push('_');
    let mut i: usize = 0;
    while i < uc.len()
        invariant
            i <= uc@.len() == 32,
            forall|k: int| 0 <= k < 32 ==> spec_lower_hex(#[trigger] uc@[k]),
            cs@.len() == 7 + i,
            cs@.take(7) == spec_client_prefix(),
            forall|k: int| 7 <= k < 7 + i ==> cs@[k] == uc@[k - 7],
        decreases uc@.len() - i,
    {
        cs.push(uc[i]);
        i += 1;
    }
    let s = string_from_chars(cs.as_slice());
    assert forall|k: int| 7 <= k < 39 implies spec_lower_hex(#[trigger] s@[k]) by {
        assert(s@[k] == uc@[k - 7]);
    }
    s
}

/// MQTT channel parameters, as configured.
#[derive(Debug, Clone)]
pub struct MqttParamsConfig {
    /// Broker URL, e.g. "tcp://localhost:1883".
    pub broker: String,
    pub client_id: String,
    pub username: Option<String>,
    pub password: Option<String>,
    pub subscriptions: Vec<MqttSubscription>,
    pub keep_alive_secs: u64,
    pub connect_timeout_ms: u64,
    /// 0: retry for ever.
    pub max_reconnect_attempts: u32,
    pub reconnect_delay_ms: u64,
}

/// "tcp://localhost:1883"
pub open spec fn spec_default_broker() -> Seq<char> {
    seq!['t', 'c', 'p', ':', '/', '/', 'l', 'o', 'c', 'a', 'l', 'h', 'o', 's', 't', ':', '1', '8', '8', '3']
}

impl Default for MqttParamsConfig {
    fn default() -> (c: Self)
        ensures
            c.broker@ == spec_default_broker(),
            c.client_id@.take(7) == spec_client_prefix(),
            c.client_id@.len() == 39,
            c.username is None,
            c.password is None,
            c.subscriptions@.len() == 0,
            c.keep_alive_secs == 30,
            c.connect_timeout_ms == 5000,
            c.max_reconnect_attempts == 0,
            c.reconnect_delay_ms == 5000,
    {
        let b: [char; 20] = [
            't', 'c', 'p', ':', '/', '/', 'l', 'o', 'c', 'a', 'l', 'h', 'o', 's', 't', ':', '1', '8',
            '8', '3',
        ];
        assert(b@ =~= spec_default_broker());
        MqttParamsConfig {
            broker: string_from_chars(b.as_slice()),
            client_id: default_client_id(),
            username: None,
            password: None,
            subscriptions: Vec::new(),
            keep_alive_secs: default_keep_alive(),
            connect_timeout_ms: default_connect_timeout_ms(),
            max_reconnect_attempts: 0,
            reconnect_delay_ms: default_reconnect_delay_ms(),
        }
    }
}

/// MQTT channel configuration used at run time.
#[derive(Debug)]
pub struct MqttConfig {
    pub broker: String,
    pub client_id: String,
    pub username: Option<String>,
    pub password: Option<String>,
    pub subscriptions: Vec<MqttSubscription>,
    pub keep_alive: Duration,
    pub connect_timeout: Duration,
    pub max_reconnect_attempts: u32,
    pub reconnect_delay: Duration,
}

fn clone_subscriptions(s: &Vec<MqttSubscription>) -> (r: Vec<MqttSubscription>)
    ensures
        r@.len() == s@.len(),
        forall|i: int|
            0 <= i < s@.len() ==> (#[trigger] r@[i]).topic@ == s@[i].topic@ && r@[i].qos == s@[i].qos,
{
    let mut r: Vec<MqttSubscription> = Vec::with_capacity(s.len());
    let mut i: usize = 0;
    while i < s.len()
        invariant
            i <= s@.len(),
            r@.len() == i,
            forall|j: int|
                0 <= j < i ==> (#[trigger] r@[j]).topic@ == s@[j].topic@ && r@[j].qos == s@[j].qos,
        decreases s@.len() - i,
    {
        r.push(MqttSubscription { topic: s[i].topic.clone(), qos: s[i].qos });
        i += 1;
    }
    r
}

impl MqttParamsConfig {
    /// The run-time configuration these parameters describe.
    pub fn to_config(&self) -> (c: MqttConfig)
        ensures
            c.broker@ == self.broker@,
            c.client_id@ == self.client_id@,
            c.username == self.username,
            c.password == self.password,
            c.subscriptions@.len() == self.subscriptions@.len(),
            forall|i: int|
                0 <= i < c.subscriptions@.len() ==> (#[trigger] c.subscriptions@[i]).topic@
                    == self.subscriptions@[i].topic@ && c.subscriptions@[i].qos
                    == self.subscriptions@[i].qos,
            c.keep_alive == secs_duration(self.keep_alive_secs),
            c.connect_timeout == millis_duration(self.connect_timeout_ms),
            c.max_reconnect_attempts == self.max_reconnect_attempts,
            c.reconnect_delay == millis_duration(self.reconnect_delay_ms),
    {
        MqttConfig {
            broker: self.broker.clone(),
            client_id: self.client_id.clone(),
            username: clone_opt_string(&self.username),
            password: clone_opt_string(&self.password),
            subscriptions: clone_subscriptions(&self.subscriptions),
            keep_alive: duration_from_secs(self.keep_alive_secs),
            connect_timeout: duration_from_millis(self.connect_timeout_ms),
            max_reconnect_attempts: self.max_reconnect_attempts,
            reconnect_delay: duration_from_millis(self.reconnect_delay_ms),
        }
    }
}

// ── Broker URL ─────────────────────────────────────────────────────────────────

/// Why a broker URL was refused.
#[derive(Debug, Clone, Copy, PartialEq, Eq)]
pub enum MqttError {
    /// The part after the first ':' is not a port number.
    InvalidPort,
}

/// The URL without its scheme: the first of "tcp://", "mqtt://", "ssl://" and
/// "mqtts://" that it starts with is removed.
pub open spec fn spec_strip_scheme(s: Seq<char>) -> Seq<char> {
    if spec_starts_with(s, seq!['t', 'c', 'p', ':', '/', '/']) {
        s.skip(6)
    } else if spec_starts_with(s, seq!['m', 'q', 't', 't', ':', '/', '/']) {
        s.skip(7)
    } else if spec_starts_with(s, seq!['s', 's', 'l', ':', '/', '/']) {
        s.skip(6)
    } else if spec_starts_with(s, seq!['m', 'q', 't', 't', 's', ':', '/', '/']) {
        s.skip(8)
    } else {
        s
    }
}

/// Host and port of a broker URL: the host is the text before the first ':'
/// (after the scheme); the port is the decimal text between the first and the
/// second ':', 1883 when there is no ':'.
pub open spec fn spec_parse_broker(s: Seq<char>) -> Result<(Seq<char>, u16), MqttError> {
    let t = spec_strip_scheme(s);
    let p1 = spec_find_from(t, ':', 0);
    let host = t.take(p1);
    if p1 >= t.len() {
        Ok((host, 1883))
    } else {
        let p2 = spec_find_from(t, ':', p1 + 1);
        match spec_parse_uint(t.subrange(p1 + 1, p2), 10, 0xFFFF) {
            Some(port) => Ok((host, port as u16)),
            None => Err(MqttError::InvalidPort),
        }
    }
}

fn strip_scheme(cs: &[char]) -> (r: Vec<char>)
    ensures
        r@ == spec_strip_scheme(cs@),
{
    let tcp: [char; 6] = ['t', 'c', 'p', ':', '/', '/'];
    let mqtt: [char; 7] = ['m', 'q', 't', 't', ':', '/', '/'];
    let ssl: [char; 6] = ['s', 's', 'l', ':', '/', '/'];
    let mqtts: [char; 8] = ['m', 'q', 't', 't', 's', ':', '/', '/'];
    assert(tcp@ =~= seq!['t', 'c', 'p', ':', '/', '/']);
    assert(mqtt@ =~= seq!['m', 'q', 't', 't', ':', '/', '/']);
    assert(ssl@ =~= seq!['s', 's', 'l', ':', '/', '/']);
    assert(mqtts@ =~= seq!['m', 'q', 't', 't', 's', ':', '/', '/']);
    let start: usize = if starts_with(cs, tcp.as_slice()) {
        6
    } else if starts_with(cs, mqtt.as_slice()) {
        7
    } else if starts_with(cs, ssl.as_slice()) {
        6
    } else if starts_with(cs, mqtts.as_slice()) {
        8
    } else {
        0
    };
    let r = slice_range(cs, start, cs.len());
    assert(r@ =~= spec_strip_scheme(cs@));
    r
}

/// Host and port of a broker URL such as "tcp://192.168.1.50:1883".
pub fn parse_broker(broker: &str) -> (r: Result<(String, u16), MqttError>)
    ensures
        match spec_parse_broker(broker@) {
            Ok((h, p)) => r matches Ok((x, q)) && x@ == h && q == p,
            Err(e) => r == Err::<(String, u16), MqttError>(e),
        },
{
    let cs = chars_of(broker);
    let t = strip_scheme(cs.as_slice());
    let n = t.len();
    let p1 = find_char(t.as_slice(), ':', 0);
    let host = string_from_chars(slice_range(t.as_slice(), 0, p1).as_slice());
    assert(t@.subrange(0, p1 as int) =~= t@.take(p1 as int));
    if p1 >= n {
        return Ok((host, 1883));
    }
    let p2 = find_char(t.as_slice(), ':', p1 + 1);
    let port_text = slice_range(t.as_slice(), p1 + 1, p2);
    match parse_uint(port_text.as_slice(), 10, 0xFFFF) {
        Some(port) => Ok((host, port as u16)),
        None => Err(MqttError::InvalidPort),
    }
}

/// The MQTT delivery guarantee of a subscription.
#[derive(Debug, Clone, Copy, PartialEq, Eq)]
pub enum QosLevel {
    AtMostOnce,
    AtLeastOnce,
    ExactlyOnce,
}

/// The delivery guarantee a configured QoS number asks for: 0 at most once,
/// 1 at least once, anything higher exactly once.
pub fn qos_level(qos: u8) -> (q: QosLevel)
    ensures
        q == (if qos == 0 {
            QosLevel::AtMostOnce
        } else if qos == 1 {
            QosLevel::AtLeastOnce
        } else {
            QosLevel::ExactlyOnce
        }),
{
    match qos {
        0 => QosLevel::AtMostOnce,
        1 => QosLevel::AtLeastOnce,
        _ => QosLevel::ExactlyOnce,
    }
}

/// Whether a broker URL asks for TLS: it starts with "ssl://" or "mqtts://".
pub fn wants_tls(broker: &str) -> (b: bool)
    ensures
        b == (spec_starts_with(broker@, seq!['s', 's', 'l', ':', '/', '/']) || spec_starts_with(
            broker@,
            seq!['m', 'q', 't', 't', 's', ':', '/', '/'],
        )),
{
    let cs = chars_of(broker);
    let ssl: [char; 6] = ['s', 's', 'l', ':', '/', '/'];
    let mqtts: [char; 8] = ['m', 'q', 't', 't', 's', ':', '/', '/'];
    assert(ssl@ =~= seq!['s', 's', 'l', ':', '/', '/']);
    assert(mqtts@ =~= seq!['m', 'q', 't', 't', 's', ':', '/', '/']);
    starts_with(cs.as_slice(), ssl.as_slice()) || starts_with(cs.as_slice(), mqtts.as_slice())
}

impl MqttConfig {
    /// Host and port of the configured broker.
    pub fn parse_broker(&self) -> (r: Result<(String, u16), MqttError>)
        ensures
            match spec_parse_broker(self.broker@) {
                Ok((h, p)) => r matches Ok((x, q)) && x@ == h && q == p,
                Err(e) => r == Err::<(String, u16), MqttError>(e),
            },
    {
        parse_broker(self.broker.as_str())
    }
}

} // verus!
