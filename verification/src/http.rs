//! HTTP channels: configuration, the request method, the checks that keep a
//! polling URL away from internal hosts, and the authorisation of webhook
//! calls. (JSON mapping rules are held by the caller.)
use vstd::prelude::*;
use std::collections::HashMap;
use std::time::Duration;
use crate::duration::{duration_from_millis, millis_duration};
use crate::text::{
    chars_of, clone_opt_string, eq_ignore_ascii_case, find_char, parse_uint, slice_range,
    spec_eq_ignore_ascii_case, spec_find_from, spec_parse_uint, spec_starts_with, starts_with,
    string_from_chars,
};

verus! {

/// How an HTTP channel gets its data.
#[derive(Debug, Clone, Copy, PartialEq, Eq)]
pub enum HttpMode {
    /// The service fetches data at intervals.
    Polling,
    /// The device pushes data to the service.
    Webhook,
}

impl Default for HttpMode {
    fn default() -> (m: Self)
        ensures
            m == HttpMode::Polling,
    {
        HttpMode::Polling
    }
}

/// Request method used when polling.
#[allow(non_camel_case_types)]
#[derive(Debug, Clone, Copy, PartialEq, Eq)]
pub enum HttpMethod {
    GET,
    POST,
    PUT,
}

impl Default for HttpMethod {
    fn default() -> (m: Self)
        ensures
            m == HttpMethod::GET,
    {
        HttpMethod::GET
    }
}

/// The name of a method on the wire.
pub open spec fn spec_method_name(m: HttpMethod) -> Seq<char> {
    match m {
        HttpMethod::GET => seq!['G', 'E', 'T'],
        HttpMethod::POST => seq!['P', 'O', 'S', 'T'],
        HttpMethod::PUT => seq!['P', 'U', 'T'],
    }
}

impl HttpMethod {
    /// The name of this method on the wire.
    pub fn name(&self) -> (s: String)
        ensures
            s@ == spec_method_name(*self),
    {
        match self {
            HttpMethod::GET => {
                let cs: [char; 3] = ['G', 'E', 'T'];
                string_from_chars(cs.as_slice())
            },
            HttpMethod::POST => {
                let cs: [char; 4] = ['P', 'O', 'S', 'T'];
                string_from_chars(cs.as_slice())
            },
            HttpMethod::PUT => {
                let cs: [char; 3] = ['P', 'U', 'T'];
                string_from_chars(cs.as_slice())
            },
        }
    }
}

/// The default polling interval (ms).
pub fn default_interval_ms() -> (t: u64)
    ensures
        t == 5000,
{
    5000
}

/// The default request timeout (ms).
pub fn default_timeout_ms() -> (t: u64)
    ensures
        t == 3000,
{
    3000
}

/// The default number of retries.
pub fn default_max_retries() -> (n: u32)
    ensures
        n == 3,
{
    3
}

/// The default delay between retries (ms).
pub fn default_retry_delay_ms() -> (t: u64)
    ensures
        t == 1000,
{
    1000
}

/// HTTP channel parameters, as configured.
#[derive(Debug, Clone)]
pub struct HttpParamsConfig {
    pub mode: HttpMode,
    pub url: Option<String>,
    pub method: HttpMethod,
    pub headers: HashMap<String, String>,
    pub body: Option<String>,
    pub interval_ms: u64,
    pub timeout_ms: u64,
    pub listen_path: Option<String>,
    pub auth_token: Option<String>,
    pub max_retries: u32,
    pub retry_delay_ms: u64,
}

impl Default for HttpParamsConfig {
    fn default() -> (c: Self)
        ensures
            c.mode == HttpMode::Polling,
            c.url is None,
            c.method == HttpMethod::GET,
            c.headers@ == Map::<String, String>::empty(),
            c.body is None,
            c.interval_ms == 5000,
            c.timeout_ms == 3000,
            c.listen_path is None,
            c.auth_token is None,
            c.max_retries == 3,
            c.retry_delay_ms == 1000,
    {
        HttpParamsConfig {
            mode: HttpMode::Polling,
            url: None,
            method: HttpMethod::GET,
            headers: HashMap::new(),
            body: None,
            interval_ms: default_interval_ms(),
            timeout_ms: default_timeout_ms(),
            listen_path: None,
            auth_token: None,
            max_retries: default_max_retries(),
            retry_delay_ms: default_retry_delay_ms(),
        }
    }
}

/// HTTP channel configuration used at run time.
#[derive(Debug)]
pub struct HttpConfig {
    pub mode: HttpMode,
    pub url: Option<String>,
    pub method: HttpMethod,
    pub headers: HashMap<String, String>,
    pub body: Option<String>,
    pub interval: Duration,
    pub timeout: Duration,
    pub listen_path: Option<String>,
    pub auth_token: Option<String>,
    pub max_retries: u32,
    pub retry_delay: Duration,
}

impl HttpParamsConfig {
    /// The run-time configuration these parameters describe.
    pub fn to_config(&self) -> (c: HttpConfig)
        ensures
            c.mode == self.mode,
            c.url == self.url,
            c.method == self.method,
            c.headers@ == self.headers@,
            c.body == self.body,
            c.interval == millis_duration(self.interval_ms),
            c.timeout == millis_duration(self.timeout_ms),
            c.listen_path == self.listen_path,
            c.auth_token == self.auth_token,
            c.max_retries == self.max_retries,
            c.retry_delay == millis_duration(self.retry_delay_ms),
    {
        HttpConfig {
            mode: self.mode,
            url: clone_opt_string(&self.url),
            method: self.method,
            headers: self.headers.clone(),
            body: clone_opt_string(&self.body),
            interval: duration_from_millis(self.interval_ms),
            timeout: duration_from_millis(self.timeout_ms),
            listen_path: clone_opt_string(&self.listen_path),
            auth_token: clone_opt_string(&self.auth_token),
            max_retries: self.max_retries,
            retry_delay: duration_from_millis(self.retry_delay_ms),
        }
    }
}

// ── Polling target checks ──────────────────────────────────────────────────────

/// The host of a polling URL: a name, or an IPv4 or IPv6 address.
#[derive(Debug, Clone, PartialEq, Eq)]
pub enum UrlHost {
    Name(String),
    V4([u8; 4]),
    V6([u16; 8]),
}

/// The mathematical content of a `UrlHost`.
pub enum UrlHostView {
    Name(Seq<char>),
    V4([u8; 4]),
    V6([u16; 8]),
}

impl View for UrlHost {
    type V = UrlHostView;

    open spec fn view(&self) -> UrlHostView {
        match self {
            UrlHost::Name(n) => UrlHostView::Name(n@),
            UrlHost::V4(a) => UrlHostView::V4(*a),
            UrlHost::V6(a) => UrlHostView::V6(*a),
        }
    }
}

/// What `Url::parse` and then `Url::host` make of a URL text: `None` when the
/// text does not parse, `Some(None)` when the URL has no host.
pub uninterp spec fn url_host_of(url: Seq<char>) -> Option<Option<UrlHostView>>;

/// The content of a parsed host, level by level.
pub open spec fn opt_host_view(r: Option<Option<UrlHost>>) -> Option<Option<UrlHostView>> {
    match r {
        None => None,
        Some(None) => Some(None),
        Some(Some(h)) => Some(Some(h@)),
    }
}

/// `reqwest::Url::parse` (the `url` crate's parser) followed by `Url::host`, the
/// host converted variant by variant. The URL grammar is not restated: the
/// result is named by `url_host_of`, a function of the text alone.
#[verifier::external_body]
fn url_host(url: &str) -> (r: Option<Option<UrlHost>>)
    ensures
        opt_host_view(r) == url_host_of(url@),
{
    match reqwest::Url::parse(url) {
        Err(_) => None,
        Ok(u) => match u.host() {
            None => Some(None),
            Some(url::Host::Domain(d)) => Some(Some(UrlHost::Name(d.to_string()))),
            Some(url::Host::Ipv4(a)) => Some(Some(UrlHost::V4(a.octets()))),
            Some(url::Host::Ipv6(a)) => Some(Some(UrlHost::V6(a.segments()))),
        },
    }
}

/// Why a polling URL was refused.
#[derive(Debug, Clone, Copy, PartialEq, Eq)]
pub enum HttpError {
    /// The URL does not parse.
    InvalidUrl,
    /// The URL has no host.
    MissingHost,
    /// The host is internal: localhost, an unspecified, loopback or link-local
    /// address.
    BlockedHost,
    /// A response that announces more bytes than may be read.
    ResponseTooLarge(u64),
}

/// The largest response body read (10 MiB).
pub const MAX_RESPONSE_BYTES: u64 = 10 * 1024 * 1024;

/// Refuse a response whose announced length exceeds the limit; a response
/// without a length is accepted.
pub fn check_response_size(content_length: Option<u64>) -> (r: Result<(), HttpError>)
    ensures
        r == (match content_length {
            Some(len) => if len > MAX_RESPONSE_BYTES {
                Err(HttpError::ResponseTooLarge(len))
            } else {
                Ok(())
            },
            None => Ok(()),
        }),
{
    match content_length {
        Some(len) => if len > MAX_RESPONSE_BYTES {
            Err(HttpError::ResponseTooLarge(len))
        } else {
            Ok(())
        },
        None => Ok(()),
    }
}

/// One decimal octet of an IPv4 address as Rust's address parser reads it: one
/// to three digits, no leading zero unless the octet is "0", a value below 256.
pub open spec fn spec_ipv4_octet(p: Seq<char>) -> Option<u8> {
    if 1 <= p.len() <= 3 && p[0] != '+' && (p.len() == 1 || p[0] != '0') {
        match spec_parse_uint(p, 10, 255) {
            Some(v) => Some(v as u8),
            None => None,
        }
    } else {
        None
    }
}

/// The IPv4 address that a text denotes as Rust's `IpAddr` parser reads it: four
/// octets separated by dots. (A host name from a URL holds no ':', so it never
/// reads as an IPv6 address.)
pub open spec fn spec_ipv4_text(s: Seq<char>) -> Option<[u8; 4]> {
    let n = s.len() as int;
    let d1 = spec_find_from(s, '.', 0);
    let d2 = spec_find_from(s, '.', d1 + 1);
    let d3 = spec_find_from(s, '.', d2 + 1);
    if d3 >= n || spec_find_from(s, '.', d3 + 1) < n {
        None
    } else {
        match (
            spec_ipv4_octet(s.subrange(0, d1)),
            spec_ipv4_octet(s.subrange(d1 + 1, d2)),
            spec_ipv4_octet(s.subrange(d2 + 1, d3)),
            spec_ipv4_octet(s.subrange(d3 + 1, n)),
        ) {
            (Some(a), Some(b), Some(c), Some(d)) => Some([a, b, c, d]),
            _ => None,
        }
    }
}

/// IPv4 loopback (127/8), link-local (169.254/16) or unspecified.
pub open spec fn spec_blocked_v4(a: [u8; 4]) -> bool {
    a[0] == 127 || (a[0] == 169 && a[1] == 254) || (a[0] == 0 && a[1] == 0 && a[2] == 0 && a[3] == 0)
}

/// Whether a host is one that polling must not reach: "localhost" or "0.0.0.0"
/// (any case), a name that reads as a blocked IPv4 address, IPv4 loopback
/// (127/8), link-local (169.254/16) or unspecified, IPv6 loopback (::1) or
/// unspecified (::). Private networks are allowed.
pub open spec fn spec_blocked_host(h: UrlHostView) -> bool {
    match h {
        UrlHostView::Name(n) => spec_eq_ignore_ascii_case(n, seq!['l', 'o', 'c', 'a', 'l', 'h', 'o', 's', 't'])
            || n == seq!['0', '.', '0', '.', '0', '.', '0'] || match spec_ipv4_text(n) {
            Some(a) => spec_blocked_v4(a),
            None => false,
        },
        UrlHostView::V4(a) => spec_blocked_v4(a),
        UrlHostView::V6(a) => (a[0] == 0 && a[1] == 0 && a[2] == 0 && a[3] == 0 && a[4] == 0 && a[5] == 0
            && a[6] == 0 && (a[7] == 0 || a[7] == 1)),
    }
}

fn ipv4_octet(cs: &[char], a: usize, b: usize) -> (r: Option<u8>)
    requires
        a <= b <= cs@.len(),
    ensures
        r == spec_ipv4_octet(cs@.subrange(a as int, b as int)),
{
    let p = slice_range(cs, a, b);
    if 1 <= p.len() && p.len() <= 3 && p[0] != '+' && (p.len() == 1 || p[0] != '0') {
        match parse_uint(p.as_slice(), 10, 255) {
            Some(v) => Some(v as u8),
            None => None,
        }
    } else {
        None
    }
}

fn ipv4_text(cs: &[char]) -> (r: Option<[u8; 4]>)
    ensures
        r == spec_ipv4_text(cs@),
{
    let n = cs.len();
    let d1 = find_char(cs, '.', 0);
    if d1 >= n {
        return None;
    }
    let d2 = find_char(cs, '.', d1 + 1);
    if d2 >= n {
        return None;
    }
    let d3 = find_char(cs, '.', d2 + 1);
    if d3 >= n {
        return None;
    }
    if find_char(cs, '.', d3 + 1) < n {
        return None;
    }
    let a = ipv4_octet(cs, 0, d1);
    let b = ipv4_octet(cs, d1 + 1, d2);
    let c = ipv4_octet(cs, d2 + 1, d3);
    let d = ipv4_octet(cs, d3 + 1, n);
    match (a, b, c, d) {
        (Some(a), Some(b), Some(c), Some(d)) => Some([a, b, c, d]),
        _ => None,
    }
}

/// Refuse a polling host that is internal.
pub fn check_host(host: &UrlHost) -> (r: Result<(), HttpError>)
    ensures
        r is Ok <==> !spec_blocked_host(host@),
        r is Err ==> r == Err::<(), HttpError>(HttpError::BlockedHost),
{
    let blocked = match host {
        UrlHost::Name(n) => {
            let cs = chars_of(n.as_str());
            let localhost: [char; 9] = ['l', 'o', 'c', 'a', 'l', 'h', 'o', 's', 't'];
            let zeros: [char; 7] = ['0', '.', '0', '.', '0', '.', '0'];
            assert(localhost@ =~= seq!['l', 'o', 'c', 'a', 'l', 'h', 'o', 's', 't']);
            assert(zeros@ =~= seq!['0', '.', '0', '.', '0', '.', '0']);
            let z = cs.len() == 7 && starts_with(cs.as_slice(), zeros.as_slice());
            proof {
                if cs@.len() == 7 && spec_starts_with(cs@, zeros@) {
                    assert(cs@.take(7) =~= cs@);
                }
                if n@ == seq!['0', '.', '0', '.', '0', '.', '0'] {
                    assert(cs@.take(7) =~= zeros@);
                }
            }
            let ip_blocked = match ipv4_text(cs.as_slice()) {
                Some(a) => a[0] == 127 || (a[0] == 169 && a[1] == 254) || (a[0] == 0 && a[1] == 0
                    && a[2] == 0 && a[3] == 0),
                None => false,
            };
            eq_ignore_ascii_case(cs.as_slice(), localhost.as_slice()) || z || ip_blocked
        },
        UrlHost::V4(a) => a[0] == 127 || (a[0] == 169 && a[1] == 254) || (a[0] == 0 && a[1] == 0
            && a[2] == 0 && a[3] == 0),
        UrlHost::V6(a) => a[0] == 0 && a[1] == 0 && a[2] == 0 && a[3] == 0 && a[4] == 0 && a[5]
            == 0 && a[6] == 0 && (a[7] == 0 || a[7] == 1),
    };
    if blocked {
        Err(HttpError::BlockedHost)
    } else {
        Ok(())
    }
}

/// Refuse a polling URL that does not parse, has no host, or names an internal
/// host.
pub fn validate_url(url: &str) -> (r: Result<(), HttpError>)
    ensures
        r == (match url_host_of(url@) {
            None => Err(HttpError::InvalidUrl),
            Some(None) => Err(HttpError::MissingHost),
            Some(Some(h)) => if spec_blocked_host(h) {
                Err(HttpError::BlockedHost)
            } else {
                Ok(())
            },
        }),
{
    let parsed = url_host(url);
    match parsed {
        None => Err(HttpError::InvalidUrl),
        Some(None) => Err(HttpError::MissingHost),
        Some(Some(h)) => {
            assert(url_host_of(url@) == Some(Some(h@)));
            match check_host(&h) {
                Ok(()) => Ok(()),
                Err(e) => Err(e),
            }
        },
    }
}

// ── Polling loop decisions ─────────────────────────────────────────────────────

/// The state a polling channel reports.
#[derive(Debug, Clone, Copy, PartialEq, Eq)]
pub enum PollLinkState {
    Connected,
    Error,
}

/// What the polling loop carries from one poll to the next.
#[derive(Debug, Clone, Copy, PartialEq, Eq)]
pub struct PollState {
    /// Failed polls since the last good one (wrapping at 2^32).
    pub consecutive_failures: u32,
    pub link: PollLinkState,
}

/// How one poll ended.
#[derive(Debug, Clone, Copy, PartialEq, Eq)]
pub enum PollEvent {
    /// The request could not be sent or got no response.
    RequestFailed,
    /// The server answered with a status other than success.
    BadStatus(u16),
    /// The response announced more bytes than may be read.
    TooLarge(u64),
    /// The response body could not be read.
    BodyFailed,
    /// The body was mapped to this many points.
    Parsed(usize),
    /// The body could not be mapped to points.
    ParseFailed,
}

/// What the loop does after a poll.
#[derive(Debug, Clone, Copy, PartialEq, Eq)]
pub struct PollAction {
    /// Count the failure in the diagnostics.
    pub record_error: bool,
    /// Announce the Error state (a connection change and an error event).
    pub announce_error: bool,
    /// Hand the parsed points on (there is at least one).
    pub publish: bool,
}

/// The poll state at the start: connected, with no failures.
pub fn initial_poll_state() -> (s: PollState)
    ensures
        s.consecutive_failures == 0,
        s.link == PollLinkState::Connected,
{
    PollState { consecutive_failures: 0, link: PollLinkState::Connected }
}

/// The poll state after one poll that ended with `ev` (see `poll_step`).
pub open spec fn spec_next_poll_state(s: PollState, ev: PollEvent, max_retries: u32) -> PollState {
    let bumped = ((s.consecutive_failures as int + 1) % 0x1_0000_0000) as u32;
    match ev {
        PollEvent::RequestFailed => PollState {
            consecutive_failures: bumped,
            link: if bumped >= max_retries && max_retries > 0 {
                PollLinkState::Error
            } else {
                s.link
            },
        },
        PollEvent::BadStatus(_) | PollEvent::TooLarge(_) => PollState { consecutive_failures: bumped, link: s.link },
        PollEvent::BodyFailed | PollEvent::ParseFailed => s,
        PollEvent::Parsed(_) => PollState { consecutive_failures: 0, link: PollLinkState::Connected },
    }
}

/// The poll state after polls that ended with `evs`, in order.
pub open spec fn spec_poll_run(s: PollState, evs: Seq<PollEvent>, max_retries: u32) -> PollState
    decreases evs.len(),
{
    if evs.len() == 0 {
        s
    } else {
        spec_next_poll_state(spec_poll_run(s, evs.drop_last(), max_retries), evs.last(), max_retries)
    }
}

/// Retries run out: from a state with no failures counted, `k` failed requests
/// in a row (`k` at least `max_retries`, which is above 0) count `k` failures and
/// leave the channel in the Error state; one mapped body then resets the count
/// and the channel is connected again.
pub proof fn lemma_failures_reach_error(s: PollState, k: nat, max_retries: u32)
    requires
        s.consecutive_failures == 0,
        0 < max_retries <= k < 0x1_0000_0000,
    ensures
        spec_poll_run(s, Seq::new(k, |i: int| PollEvent::RequestFailed), max_retries)
            == (PollState { consecutive_failures: k as u32, link: PollLinkState::Error }),
        spec_poll_run(s, Seq::new(k, |i: int| PollEvent::RequestFailed).push(PollEvent::Parsed(0)), max_retries)
            == (PollState { consecutive_failures: 0, link: PollLinkState::Connected }),
{
    lemma_failures_counted(s, k, max_retries);
    let evs = Seq::new(k, |i: int| PollEvent::RequestFailed);
    assert(evs.push(PollEvent::Parsed(0)).drop_last() =~= evs);
}

proof fn lemma_failures_counted(s: PollState, k: nat, max_retries: u32)
    requires
        s.consecutive_failures == 0,
        k < 0x1_0000_0000,
    ensures
        spec_poll_run(s, Seq::new(k, |i: int| PollEvent::RequestFailed), max_retries).consecutive_failures == k,
        spec_poll_run(s, Seq::new(k, |i: int| PollEvent::RequestFailed), max_retries).link == (if max_retries
            > 0 && k >= max_retries {
            PollLinkState::Error
        } else {
            s.link
        }),
    decreases k,
{
    let evs = Seq::new(k, |i: int| PollEvent::RequestFailed);
    if k > 0 {
        lemma_failures_counted(s, (k - 1) as nat, max_retries);
        assert(evs.drop_last() =~= Seq::new((k - 1) as nat, |i: int| PollEvent::RequestFailed));
        assert(evs.last() == PollEvent::RequestFailed);
    } else {
        assert(evs =~= Seq::<PollEvent>::empty());
    }
}

/// The next poll state and the action after a poll ended with `ev`. A request,
/// status or size failure adds one to the count of consecutive failures; a body
/// or mapping failure is only recorded. A failed request that brings the count
/// to `max_retries` or more (with `max_retries` above 0) puts the channel in the
/// Error state. A mapped body resets the count and the channel is connected.
pub fn poll_step(s: PollState, ev: PollEvent, max_retries: u32) -> (r: (PollState, PollAction))
    ensures
        r.0 == spec_next_poll_state(s, ev, max_retries),
        ({
            let (n, a) = r;
            let bumped = ((s.consecutive_failures as int + 1) % 0x1_0000_0000) as u32;
            match ev {
                PollEvent::RequestFailed => {
                    &&& n.consecutive_failures == bumped
                    &&& a.record_error
                    &&& !a.publish
                    &&& a.announce_error == (bumped >= max_retries && max_retries > 0)
                    &&& n.link == (if a.announce_error { PollLinkState::Error } else { s.link })
                },
                PollEvent::BadStatus(_) | PollEvent::TooLarge(_) => {
                    &&& n.consecutive_failures == bumped
                    &&& n.link == s.link
                    &&& a == PollAction { record_error: true, announce_error: false, publish: false }
                },
                PollEvent::BodyFailed | PollEvent::ParseFailed => {
                    &&& n == s
                    &&& a == PollAction { record_error: true, announce_error: false, publish: false }
                },
                PollEvent::Parsed(count) => {
                    &&& n.consecutive_failures == 0
                    &&& n.link == PollLinkState::Connected
                    &&& a == PollAction { record_error: false, announce_error: false, publish: count > 0 }
                },
            }
        }),
{
    let failed = PollAction { record_error: true, announce_error: false, publish: false };
    match ev {
        PollEvent::RequestFailed => {
            let count = s.consecutive_failures.wrapping_add(1);
            let announce = count >= max_retries && max_retries > 0;
            let link = if announce { PollLinkState::Error } else { s.link };
            (
                PollState { consecutive_failures: count, link },
                PollAction { record_error: true, announce_error: announce, publish: false },
            )
        },
        PollEvent::BadStatus(_) | PollEvent::TooLarge(_) => {
            let count = s.consecutive_failures.wrapping_add(1);
            (PollState { consecutive_failures: count, link: s.link }, failed)
        },
        PollEvent::BodyFailed | PollEvent::ParseFailed => (s, failed),
        PollEvent::Parsed(count) => (
            PollState { consecutive_failures: 0, link: PollLinkState::Connected },
            PollAction { record_error: false, announce_error: false, publish: count > 0 },
        ),
    }
}

// ── Webhooks ───────────────────────────────────────────────────────────────────

/// Why a webhook call was refused.
#[derive(Debug, Clone, Copy, PartialEq, Eq)]
pub enum WebhookError {
    /// A token is configured and the call has no authorization header.
    MissingAuthorization,
    /// The token given differs from the one configured.
    InvalidToken,
}

/// Receives pushed data for a channel.
#[derive(Debug, Clone)]
pub struct WebhookHandler {
    pub channel_id: u32,
    /// The token callers must present, if any.
    pub auth_token: Option<String>,
}

/// "Bearer "
pub open spec fn spec_bearer() -> Seq<char> {
    seq!['B', 'e', 'a', 'r', 'e', 'r', ' ']
}

/// The token in an authorization header: the text after "Bearer ", or the whole
/// header when it has no such prefix.
pub open spec fn spec_header_token(h: Seq<char>) -> Seq<char> {
    if spec_starts_with(h, spec_bearer()) {
        h.skip(7)
    } else {
        h
    }
}

/// Whether a call with this authorization header is let through.
pub open spec fn spec_authorize(expected: Option<String>, header: Option<&str>) -> Result<(), WebhookError> {
    match expected {
        None => Ok(()),
        Some(t) => match header {
            None => Err(WebhookError::MissingAuthorization),
            Some(h) => if spec_header_token(h@) == t@ {
                Ok(())
            } else {
                Err(WebhookError::InvalidToken)
            },
        },
    }
}

fn seq_eq(a: &[char], b: &[char]) -> (r: bool)
    ensures
        r == (a@ == b@),
{
    if a.len() != b.len() {
        return false;
    }
    let mut i: usize = 0;
    while i < a.len()
        invariant
            i <= a@.len() == b@.len(),
            forall|j: int| 0 <= j < i ==> a@[j] == b@[j],
        decreases a@.len() - i,
    {
        if a[i] != b[i] {
            return false;
        }
        i += 1;
    }
    assert(a@ =~= b@);
    true
}

impl WebhookHandler {
    /// A handler for `channel_id`, checking `auth_token` when one is given.
    pub fn new(channel_id: u32, auth_token: Option<String>) -> (h: Self)
        ensures
            h.channel_id == channel_id,
            h.auth_token == auth_token,
    {
        WebhookHandler { channel_id, auth_token }
    }

    /// Check a call's authorization header ("Bearer <token>" or the bare token)
    /// against the configured token; with no token configured every call passes.
    pub fn authorize(&self, auth_header: Option<&str>) -> (r: Result<(), WebhookError>)
        ensures
            r == spec_authorize(self.auth_token, auth_header),
    {
        match &self.auth_token {
            None => Ok(()),
            Some(expected) => match auth_header {
                None => Err(WebhookError::MissingAuthorization),
                Some(h) => {
                    let hc = chars_of(h);
                    let bearer: [char; 7] = ['B', 'e', 'a', 'r', 'e', 'r', ' '];
                    assert(bearer@ =~= spec_bearer());
                    let token = if starts_with(hc.as_slice(), bearer.as_slice()) {
                        slice_range(hc.as_slice(), 7, hc.len())
                    } else {
                        hc
                    };
                    assert(token@ =~= spec_header_token(h@));
                    let ec = chars_of(expected.as_str());
                    if seq_eq(token.as_slice(), ec.as_slice()) {
                        Ok(())
                    } else {
                        Err(WebhookError::InvalidToken)
                    }
                },
            },
        }
    }
}

} // verus!
