//! Channel creation: which implementation serves a configured protocol, and the
//! point configurations of a channel's enabled points.
use vstd::prelude::*;
use crate::address::{parse_address, spec_names, spec_parse_address, AddressError, AddressView};
use crate::point::{PointConfig, PointType};
use crate::file_logging::push_chars;
use crate::text::{chars_of, eq_ignore_ascii_case};

verus! {

/// The channel implementations.
#[derive(Debug, Clone, Copy, PartialEq, Eq)]
pub enum ChannelKind {
    Modbus,
    Iec104,
    OpcUa,
    Can,
    Gpio,
    Dl645,
    Voltage485,
    Mqtt,
    Http,
    Ble,
    Zigbee,
    Matter,
    Iec61850,
    Virtual,
}

/// The implementation for a protocol name, ASCII case ignored; `None` for an
/// unsupported protocol.
pub open spec fn spec_channel_kind(p: Seq<char>) -> Option<ChannelKind> {
    if spec_names(p, seq!['m', 'o', 'd', 'b', 'u', 's']) {
        Some(ChannelKind::Modbus)
    } else if spec_names(p, seq!['i', 'e', 'c', '1', '0', '4']) {
        Some(ChannelKind::Iec104)
    } else if spec_names(p, seq!['o', 'p', 'c', 'u', 'a']) {
        Some(ChannelKind::OpcUa)
    } else if spec_names(p, seq!['c', 'a', 'n']) {
        Some(ChannelKind::Can)
    } else if spec_names(p, seq!['g', 'p', 'i', 'o']) {
        Some(ChannelKind::Gpio)
    } else if spec_names(p, seq!['d', 'l', '6', '4', '5']) {
        Some(ChannelKind::Dl645)
    } else if spec_names(p, seq!['v', 'o', 'l', 't', 'a', 'g', 'e', '_', '4', '8', '5']) {
        Some(ChannelKind::Voltage485)
    } else if spec_names(p, seq!['m', 'q', 't', 't']) {
        Some(ChannelKind::Mqtt)
    } else if spec_names(p, seq!['h', 't', 't', 'p']) {
        Some(ChannelKind::Http)
    } else if spec_names(p, seq!['b', 'l', 'e']) {
        Some(ChannelKind::Ble)
    } else if spec_names(p, seq!['z', 'i', 'g', 'b', 'e', 'e']) {
        Some(ChannelKind::Zigbee)
    } else if spec_names(p, seq!['m', 'a', 't', 't', 'e', 'r']) {
        Some(ChannelKind::Matter)
    } else if spec_names(p, seq!['i', 'e', 'c', '6', '1', '8', '5', '0']) {
        Some(ChannelKind::Iec61850)
    } else if spec_names(p, seq!['v', 'i', 'r', 't', 'u', 'a', 'l']) {
        Some(ChannelKind::Virtual)
    } else {
        None
    }
}

/// The error text for a protocol that no implementation serves.
pub open spec fn spec_unsupported_message(p: Seq<char>) -> Seq<char> {
    seq!['U', 'n', 's', 'u', 'p', 'p', 'o', 'r', 't', 'e', 'd', ' ', 'p', 'r', 'o', 't', 'o', 'c', 'o', 'l', ':', ' '] + p
        + seq!['.', ' ', 'C', 'h', 'e', 'c', 'k', ' ', 'i', 'f', ' ', 't', 'h', 'e', ' ', 'r', 'e', 'q', 'u', 'i', 'r', 'e', 'd', ' ', 'f', 'e', 'a', 't', 'u', 'r', 'e', ' ', 'i', 's', ' ', 'e', 'n', 'a', 'b', 'l', 'e', 'd', '.']
}

/// The implementation that serves a protocol name, or the error text naming an
/// unsupported protocol.
pub fn select_channel(protocol: &str) -> (r: Result<ChannelKind, String>)
    ensures
        match spec_channel_kind(protocol@) {
            Some(k) => r == Ok::<ChannelKind, String>(k),
            None => r matches Err(m) && m@ == spec_unsupported_message(protocol@),
        },
{
    match channel_kind(protocol) {
        Some(k) => Ok(k),
        None => {
            let prefix: [char; 22] = ['U', 'n', 's', 'u', 'p', 'p', 'o', 'r', 't', 'e', 'd', ' ', 'p', 'r', 'o', 't', 'o', 'c', 'o', 'l', ':', ' '];
            let suffix: [char; 43] = ['.', ' ', 'C', 'h', 'e', 'c', 'k', ' ', 'i', 'f', ' ', 't', 'h', 'e', ' ', 'r', 'e', 'q', 'u', 'i', 'r', 'e', 'd', ' ', 'f', 'e', 'a', 't', 'u', 'r', 'e', ' ', 'i', 's', ' ', 'e', 'n', 'a', 'b', 'l', 'e', 'd', '.'];
            let mut m = String::new();
            push_chars(&mut m, prefix.as_slice());
            let p = chars_of(protocol);
            push_chars(&mut m, p.as_slice());
            push_chars(&mut m, suffix.as_slice());
            assert(m@ =~= spec_unsupported_message(protocol@));
            Err(m)
        },
    }
}

/// The implementation that serves a protocol name.
pub fn channel_kind(protocol: &str) -> (k: Option<ChannelKind>)
    ensures
        k == spec_channel_kind(protocol@),
{
    let p = chars_of(protocol);
    let p = p.as_slice();
    let modbus: [char; 6] = ['m', 'o', 'd', 'b', 'u', 's'];
    let iec104: [char; 6] = ['i', 'e', 'c', '1', '0', '4'];
    let opcua: [char; 5] = ['o', 'p', 'c', 'u', 'a'];
    let can: [char; 3] = ['c', 'a', 'n'];
    let gpio: [char; 4] = ['g', 'p', 'i', 'o'];
    let dl645: [char; 5] = ['d', 'l', '6', '4', '5'];
    let v485: [char; 11] = ['v', 'o', 'l', 't', 'a', 'g', 'e', '_', '4', '8', '5'];
    let mqtt: [char; 4] = ['m', 'q', 't', 't'];
    let http: [char; 4] = ['h', 't', 't', 'p'];
    let ble: [char; 3] = ['b', 'l', 'e'];
    let zigbee: [char; 6] = ['z', 'i', 'g', 'b', 'e', 'e'];
    let matter: [char; 6] = ['m', 'a', 't', 't', 'e', 'r'];
    let iec61850: [char; 8] = ['i', 'e', 'c', '6', '1', '8', '5', '0'];
    let virt: [char; 7] = ['v', 'i', 'r', 't', 'u', 'a', 'l'];
    assert(modbus@ =~= seq!['m', 'o', 'd', 'b', 'u', 's']);
    assert(iec104@ =~= seq!['i', 'e', 'c', '1', '0', '4']);
    assert(opcua@ =~= seq!['o', 'p', 'c', 'u', 'a']);
    assert(can@ =~= seq!['c', 'a', 'n']);
    assert(gpio@ =~= seq!['g', 'p', 'i', 'o']);
    assert(dl645@ =~= seq!['d', 'l', '6', '4', '5']);
    assert(v485@ =~= seq!['v', 'o', 'l', 't', 'a', 'g', 'e', '_', '4', '8', '5']);
    assert(mqtt@ =~= seq!['m', 'q', 't', 't']);
    assert(http@ =~= seq!['h', 't', 't', 'p']);
    assert(ble@ =~= seq!['b', 'l', 'e']);
    assert(zigbee@ =~= seq!['z', 'i', 'g', 'b', 'e', 'e']);
    assert(matter@ =~= seq!['m', 'a', 't', 't', 'e', 'r']);
    assert(iec61850@ =~= seq!['i', 'e', 'c', '6', '1', '8', '5', '0']);
    assert(virt@ =~= seq!['v', 'i', 'r', 't', 'u', 'a', 'l']);
    if eq_ignore_ascii_case(p, modbus.as_slice()) {
        Some(ChannelKind::Modbus)
    } else if eq_ignore_ascii_case(p, iec104.as_slice()) {
        Some(ChannelKind::Iec104)
    } else if eq_ignore_ascii_case(p, opcua.as_slice()) {
        Some(ChannelKind::OpcUa)
    } else if eq_ignore_ascii_case(p, can.as_slice()) {
        Some(ChannelKind::Can)
    } else if eq_ignore_ascii_case(p, gpio.as_slice()) {
        Some(ChannelKind::Gpio)
    } else if eq_ignore_ascii_case(p, dl645.as_slice()) {
        Some(ChannelKind::Dl645)
    } else if eq_ignore_ascii_case(p, v485.as_slice()) {
        Some(ChannelKind::Voltage485)
    } else if eq_ignore_ascii_case(p, mqtt.as_slice()) {
        Some(ChannelKind::Mqtt)
    } else if eq_ignore_ascii_case(p, http.as_slice()) {
        Some(ChannelKind::Http)
    } else if eq_ignore_ascii_case(p, ble.as_slice()) {
        Some(ChannelKind::Ble)
    } else if eq_ignore_ascii_case(p, zigbee.as_slice()) {
        Some(ChannelKind::Zigbee)
    } else if eq_ignore_ascii_case(p, matter.as_slice()) {
        Some(ChannelKind::Matter)
    } else if eq_ignore_ascii_case(p, iec61850.as_slice()) {
        Some(ChannelKind::Iec61850)
    } else if eq_ignore_ascii_case(p, virt.as_slice()) {
        Some(ChannelKind::Virtual)
    } else {
        None
    }
}

/// A point as a channel's configuration defines it (value transforms are kept
/// by the caller).
#[derive(Debug, Clone)]
pub struct PointDef {
    pub id: u32,
    pub name: String,
    pub point_type: PointType,
    /// The shorthand address, read by the channel's protocol.
    pub address: String,
    pub enabled: bool,
}

/// The content of a point configuration built from a definition: id, kind,
/// name and parsed address.
pub struct PointConfigView {
    pub id: u32,
    pub point_type: PointType,
    pub name: Seq<char>,
    pub address: AddressView,
}

/// The configurations of the enabled points, in order, each address parsed by
/// the protocol's parser; the error of the first address that does not parse.
pub open spec fn spec_point_configs(protocol: Seq<char>, defs: Seq<PointDef>) -> Result<
    Seq<PointConfigView>,
    AddressError,
>
    decreases defs.len(),
{
    if defs.len() == 0 {
        Ok(Seq::empty())
    } else {
        match spec_point_configs(protocol, defs.drop_last()) {
            Err(e) => Err(e),
            Ok(prev) => {
                let d = defs.last();
                if !d.enabled {
                    Ok(prev)
                } else {
                    match spec_parse_address(protocol, d.address@) {
                        Err(e) => Err(e),
                        Ok(a) => Ok(
                            prev.push(
                                PointConfigView { id: d.id, point_type: d.point_type, name: d.name@, address: a },
                            ),
                        ),
                    }
                }
            },
        }
    }
}

/// Whether a point configuration holds what `v` describes (and is enabled).
pub open spec fn spec_config_is(c: PointConfig, v: PointConfigView) -> bool {
    &&& c.id == v.id
    &&& c.point_type == v.point_type
    &&& c.name matches Some(n) && n@ == v.name
    &&& c.address@ == v.address
    &&& c.enabled
}

/// The point configurations of a channel's enabled points.
pub fn build_point_configs(protocol: &str, points: &[PointDef]) -> (r: Result<Vec<PointConfig>, AddressError>)
    ensures
        match spec_point_configs(protocol@, points@) {
            Ok(vs) => r matches Ok(cs) && cs@.len() == vs.len() && forall|k: int|
                0 <= k < vs.len() ==> spec_config_is(#[trigger] cs@[k], vs[k]),
            Err(e) => r == Err::<Vec<PointConfig>, AddressError>(e),
        },
{
    let mut out: Vec<PointConfig> = Vec::new();
    let mut i: usize = 0;
    while i < points.len()
        invariant
            i <= points@.len(),
            spec_point_configs(protocol@, points@.take(i as int)) is Ok,
            ({
                let vs = spec_point_configs(protocol@, points@.take(i as int))->Ok_0;
                &&& out@.len() == vs.len()
                &&& forall|k: int| 0 <= k < vs.len() ==> spec_config_is(#[trigger] out@[k], vs[k])
            }),
        decreases points@.len() - i,
    {
        assert(points@.take(i + 1).drop_last() =~= points@.take(i as int));
        let d = &points[i];
        if d.enabled {
            let parsed = parse_address(protocol, d.address.as_str());
            match parsed {
                Ok(address) => {
                    out.push(
                        PointConfig {
                            id: d.id,
                            point_type: d.point_type,
                            name: Some(d.name.clone()),
                            address,
                            enabled: true,
                        },
                    );
                },
                Err(e) => {
                    proof {
                        lemma_point_configs_error_stays(protocol@, points@, i as int + 1);
                    }
                    assert(points@.take(points@.len() as int) =~= points@);
                    return Err(e);
                },
            }
        }
        i += 1;
    }
    assert(points@.take(points@.len() as int) =~= points@);
    Ok(out)
}

/// Once a prefix of the definitions fails, every longer prefix fails with the
/// same error.
proof fn lemma_point_configs_error_stays(protocol: Seq<char>, defs: Seq<PointDef>, i: int)
    requires
        0 <= i <= defs.len(),
        spec_point_configs(protocol, defs.take(i)) is Err,
    ensures
        spec_point_configs(protocol, defs) == spec_point_configs(protocol, defs.take(i)),
    decreases defs.len() - i,
{
    if i < defs.len() {
        assert(defs.take(i + 1).drop_last() =~= defs.take(i));
        lemma_point_configs_error_stays(protocol, defs, i + 1);
    } else {
        assert(defs.take(i) =~= defs);
    }
}

} // verus!
