//! Matter over UDP (simplified framing): message types, frames and the invoke
//! and write request payloads.
use vstd::prelude::*;
use std::collections::HashMap;
use crate::address::ProtocolAddress;
use crate::bytes::push_all;
use crate::point::PointConfig;

verus! {

/// Message types of the simplified Matter framing.
#[derive(Debug, Clone, Copy, PartialEq, Eq)]
pub enum MatterMessageType {
    /// Status report (connectivity check).
    StatusReport,
    /// Attribute write.
    WriteRequest,
    /// Command invocation.
    InvokeRequest,
}

/// The wire code of each message type.
pub open spec fn spec_message_code(t: MatterMessageType) -> u8 {
    match t {
        MatterMessageType::StatusReport => 0x01,
        MatterMessageType::WriteRequest => 0x06,
        MatterMessageType::InvokeRequest => 0x08,
    }
}

impl MatterMessageType {
    /// The wire code of this message type.
    pub fn code(&self) -> (c: u8)
        ensures
            c == spec_message_code(*self),
    {
        match self {
            MatterMessageType::StatusReport => 0x01,
            MatterMessageType::WriteRequest => 0x06,
            MatterMessageType::InvokeRequest => 0x08,
        }
    }
}

/// A frame: `[type: 1B][exchange_id: 2B LE][payload_len: 2B LE][payload]`.
#[derive(Debug, Clone)]
pub struct MatterFrame {
    pub message_type: MatterMessageType,
    pub exchange_id: u16,
    pub payload: Vec<u8>,
}

/// Two bytes of `v`, low byte first.
pub open spec fn spec_le16(v: u16) -> Seq<u8> {
    seq![(v % 256) as u8, (v / 256) as u8]
}

/// Four bytes of `v`, low byte first.
pub open spec fn spec_le32(v: u32) -> Seq<u8> {
    seq![
        (v % 0x100) as u8,
        ((v / 0x100) % 0x100) as u8,
        ((v / 0x1_0000) % 0x100) as u8,
        (v / 0x100_0000) as u8,
    ]
}

/// The bytes of a frame; the length field holds the payload length modulo 2^16.
pub open spec fn spec_encode_frame(t: MatterMessageType, exchange_id: u16, payload: Seq<u8>) -> Seq<u8> {
    seq![spec_message_code(t)] + spec_le16(exchange_id) + spec_le16((payload.len() % 0x1_0000) as u16)
        + payload
}

/// What a received buffer holds: the exchange id and the payload, when the buffer
/// has the five header bytes and the announced payload. (The type byte is not
/// interpreted: a decoded frame is reported as a status report.)
pub open spec fn spec_decode_frame(buf: Seq<u8>) -> Option<(u16, Seq<u8>)> {
    if buf.len() < 5 {
        None
    } else {
        let exchange_id = (buf[1] as nat + buf[2] as nat * 256) as u16;
        let n = buf[3] as int + buf[4] as int * 256;
        if buf.len() < 5 + n {
            None
        } else {
            Some((exchange_id, buf.subrange(5, 5 + n)))
        }
    }
}

fn push_le16(v: &mut Vec<u8>, x: u16)
    ensures
        final(v)@ == old(v)@ + spec_le16(x),
{
    v.push((x % 256) as u8);
    v.push((x / 256) as u8);
    assert(v@ =~= old(v)@ + spec_le16(x));
}

fn push_le32(v: &mut Vec<u8>, x: u32)
    ensures
        final(v)@ == old(v)@ + spec_le32(x),
{
    v.push((x % 0x100) as u8);
    v.push(((x / 0x100) % 0x100) as u8);
    v.push(((x / 0x1_0000) % 0x100) as u8);
    v.push((x / 0x100_0000) as u8);
    assert(v@ =~= old(v)@ + spec_le32(x));
}

impl MatterFrame {
    /// The bytes sent for this frame.
    pub fn encode(&self) -> (buf: Vec<u8>)
        ensures
            buf@ == spec_encode_frame(self.message_type, self.exchange_id, self.payload@),
    {
        let payload_len = (self.payload.len() % 0x1_0000) as u16;
        let mut buf: Vec<u8> = Vec::new();
        buf.push(self.message_type.code());
        push_le16(&mut buf, self.exchange_id);
        push_le16(&mut buf, payload_len);
        push_all(&mut buf, self.payload.as_slice());
        assert(buf@ =~= spec_encode_frame(self.message_type, self.exchange_id, self.payload@));
        buf
    }

    /// Read a frame from received bytes; `None` when the buffer is too short for
    /// its header or for the payload it announces.
    pub fn decode(buf: &[u8]) -> (r: Option<MatterFrame>)
        ensures
            match spec_decode_frame(buf@) {
                Some((id, payload)) => r matches Some(f) && f.exchange_id == id && f.payload@ == payload
                    && f.message_type == MatterMessageType::StatusReport,
                None => r is None,
            },
    {
        if buf.len() < 5 {
            return None;
        }
        let exchange_id: u16 = buf[1] as u16 + (buf[2] as u16) * 256;
        let payload_len: usize = buf[3] as usize + (buf[4] as usize) * 256;
        if buf.len() < 5 + payload_len {
            return None;
        }
        let payload = crate::bytes::copy_bytes(&buf[5..5 + payload_len]);
        Some(MatterFrame { message_type: MatterMessageType::StatusReport, exchange_id, payload })
    }
}

/// Decoding an encoded frame gives back its exchange id and payload, for every
/// payload whose length fits the 16-bit length field.
pub proof fn lemma_frame_roundtrip(t: MatterMessageType, exchange_id: u16, payload: Seq<u8>)
    requires
        payload.len() <= 0xFFFF,
    ensures
        spec_decode_frame(spec_encode_frame(t, exchange_id, payload)) == Some((exchange_id, payload)),
{
    let b = spec_encode_frame(t, exchange_id, payload);
    assert(b.subrange(5, 5 + payload.len() as int) =~= payload);
}

/// The payload of an invoke or write request:
/// `[endpoint: 2B LE][cluster: 4B LE][command or attribute: 4B LE][value: 8 bytes]`,
/// the value being the little-endian bytes of an IEEE-754 double.
pub open spec fn spec_request_payload(endpoint: u16, cluster_id: u32, id: u32, value_le: [u8; 8]) -> Seq<u8> {
    spec_le16(endpoint) + spec_le32(cluster_id) + spec_le32(id) + value_le@
}

fn request_payload(endpoint: u16, cluster_id: u32, id: u32, value_le: [u8; 8]) -> (p: Vec<u8>)
    ensures
        p@ == spec_request_payload(endpoint, cluster_id, id, value_le),
{
    let mut p: Vec<u8> = Vec::with_capacity(18);
    push_le16(&mut p, endpoint);
    push_le32(&mut p, cluster_id);
    push_le32(&mut p, id);
    push_all(&mut p, value_le.as_slice());
    p
}

/// An invoke request payload for `command_id` of `cluster_id` on `endpoint`, with
/// the argument given as the little-endian bytes of an `f64`.
pub fn build_invoke_request_payload(endpoint: u16, cluster_id: u32, command_id: u32, value_le: [u8; 8]) -> (p:
    Vec<u8>)
    ensures
        p@ == spec_request_payload(endpoint, cluster_id, command_id, value_le),
        p@.len() == 18,
{
    request_payload(endpoint, cluster_id, command_id, value_le)
}

/// A write request payload for `attribute_id` of `cluster_id` on `endpoint`, with
/// the value given as the little-endian bytes of an `f64`.
pub fn build_write_request_payload(endpoint: u16, cluster_id: u32, attribute_id: u32, value_le: [u8; 8]) -> (p:
    Vec<u8>)
    ensures
        p@ == spec_request_payload(endpoint, cluster_id, attribute_id, value_le),
        p@.len() == 18,
{
    request_payload(endpoint, cluster_id, attribute_id, value_le)
}

/// The exchange id to use now, and the counter after it (wrapping at 2^16).
pub fn next_exchange_id(counter: u16) -> (r: (u16, u16))
    ensures
        r.0 == counter,
        r.1 == (counter as nat + 1) % 0x1_0000,
{
    (counter, counter.wrapping_add(1))
}

// ── Points ─────────────────────────────────────────────────────────────────────

/// Why a point cannot be addressed over Matter.
#[derive(Debug, Clone, Copy, PartialEq, Eq)]
pub enum MatterPointError {
    /// No point has this id.
    UnknownPoint(u32),
    /// The point's address is not a Matter address.
    NotMatter(u32),
}

/// The points of a Matter channel by id.
pub struct MatterPoints {
    points: HashMap<u32, PointConfig>,
}

impl View for MatterPoints {
    type V = Map<u32, PointConfig>;

    closed spec fn view(&self) -> Map<u32, PointConfig> {
        self.points@
    }
}

/// `m` with `points` added in order, a later point replacing an earlier one
/// with the same id.
pub open spec fn spec_add_points(m: Map<u32, PointConfig>, points: Seq<PointConfig>) -> Map<u32, PointConfig>
    decreases points.len(),
{
    if points.len() == 0 {
        m
    } else {
        spec_add_points(m, points.drop_last()).insert(points.last().id, points.last())
    }
}

/// The `(endpoint, cluster, attribute)` of a point, or why there is none.
pub open spec fn spec_resolve_point(m: Map<u32, PointConfig>, point_id: u32) -> Result<(u16, u32, u32), MatterPointError> {
    if !m.contains_key(point_id) {
        Err(MatterPointError::UnknownPoint(point_id))
    } else {
        match m[point_id].address {
            ProtocolAddress::Matter(a) => Ok((a.endpoint, a.cluster_id, a.attribute_id)),
            _ => Err(MatterPointError::NotMatter(point_id)),
        }
    }
}

impl MatterPoints {
    /// No points.
    pub fn new() -> (s: Self)
        ensures
            s@ == Map::<u32, PointConfig>::empty(),
    {
        MatterPoints { points: HashMap::new() }
    }

    /// These points with `points` added, a later one replacing an earlier one
    /// with the same id.
    pub fn with_points(self, points: Vec<PointConfig>) -> (s: Self)
        ensures
            s@ == spec_add_points(self@, points@),
    {
        let mut m = self.points;
        let ghost init = m@;
        let ghost all = points@;
        for p in it: points.into_iter()
            invariant
                it.seq() == all,
                m@ == spec_add_points(init, all.take(it.index() as int)),
        {
            proof {
                assert(all.take(it.index() + 1).drop_last() =~= all.take(it.index() as int));
            }
            let id = p.id;
            m.insert(id, p);
        }
        proof {
            assert(all.take(all.len() as int) =~= all);
        }
        MatterPoints { points: m }
    }

    /// How many points there are.
    pub fn len(&self) -> (n: usize)
        ensures
            n == self@.len(),
    {
        self.points.len()
    }

    /// Whether a point has this id.
    pub fn contains(&self, point_id: u32) -> (b: bool)
        ensures
            b == self@.contains_key(point_id),
    {
        self.points.contains_key(&point_id)
    }

    /// The point with this id.
    pub fn get(&self, point_id: u32) -> (r: Option<&PointConfig>)
        ensures
            r == (if self@.contains_key(point_id) {
                Some(&self@[point_id])
            } else {
                None::<&PointConfig>
            }),
    {
        self.points.get(&point_id)
    }

    /// The `(endpoint, cluster, attribute)` a point is written at.
    pub fn resolve_point_address(&self, point_id: u32) -> (r: Result<(u16, u32, u32), MatterPointError>)
        ensures
            r == spec_resolve_point(self@, point_id),
    {
        match self.points.get(&point_id) {
            None => Err(MatterPointError::UnknownPoint(point_id)),
            Some(p) => match &p.address {
                ProtocolAddress::Matter(a) => Ok((a.endpoint, a.cluster_id, a.attribute_id)),
                _ => Err(MatterPointError::NotMatter(point_id)),
            },
        }
    }
}

} // verus!
