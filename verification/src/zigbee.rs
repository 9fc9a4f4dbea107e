//! Zigbee: finding the configured point that an attribute report (device,
//! endpoint, cluster, attribute) is about.
use vstd::prelude::*;
use std::collections::HashMap;
use crate::address::ProtocolAddress;
use crate::point::{PointConfig, PointType};

verus! {

broadcast use vstd::std_specs::hash::group_hash_axioms;

/// The lookup key of an attribute: the device's IEEE address in the high bits,
/// then the endpoint, the cluster id and the attribute id.
pub open spec fn spec_lookup_key(ieee: u64, endpoint: u8, cluster: u16, attribute: u16) -> u128 {
    (ieee as nat * 0x100_0000_0000 + endpoint as nat * 0x1_0000_0000 + cluster as nat * 0x1_0000
        + attribute as nat) as u128
}

/// The lookup key of an attribute.
pub fn lookup_key(ieee: u64, endpoint: u8, cluster: u16, attribute: u16) -> (k: u128)
    ensures
        k == spec_lookup_key(ieee, endpoint, cluster, attribute),
{
    (ieee as u128) * 0x100_0000_0000 + (endpoint as u128) * 0x1_0000_0000 + (cluster as u128) * 0x1_0000
        + attribute as u128
}

/// Two attributes share a key only when device, endpoint, cluster and attribute
/// are all the same.
pub proof fn lemma_lookup_key_injective(
    i1: u64,
    e1: u8,
    c1: u16,
    a1: u16,
    i2: u64,
    e2: u8,
    c2: u16,
    a2: u16,
)
    ensures
        spec_lookup_key(i1, e1, c1, a1) == spec_lookup_key(i2, e2, c2, a2) <==> (i1 == i2 && e1 == e2
            && c1 == c2 && a1 == a2),
{
    let k1 = i1 as nat * 0x100_0000_0000 + e1 as nat * 0x1_0000_0000 + c1 as nat * 0x1_0000 + a1 as nat;
    let k2 = i2 as nat * 0x100_0000_0000 + e2 as nat * 0x1_0000_0000 + c2 as nat * 0x1_0000 + a2 as nat;
    assert(k1 < 0x1_0000_0000_0000_0000_0000_0000_0000_0000) by (nonlinear_arith)
        requires
            k1 == i1 as nat * 0x100_0000_0000 + e1 as nat * 0x1_0000_0000 + c1 as nat * 0x1_0000 + a1 as nat,
            i1 < 0x1_0000_0000_0000_0000,
            e1 < 0x100,
            c1 < 0x1_0000,
            a1 < 0x1_0000,
    ;
    assert(k2 < 0x1_0000_0000_0000_0000_0000_0000_0000_0000) by (nonlinear_arith)
        requires
            k2 == i2 as nat * 0x100_0000_0000 + e2 as nat * 0x1_0000_0000 + c2 as nat * 0x1_0000 + a2 as nat,
            i2 < 0x1_0000_0000_0000_0000,
            e2 < 0x100,
            c2 < 0x1_0000,
            a2 < 0x1_0000,
    ;
    if k1 == k2 {
        assert(i1 == i2 && e1 == e2 && c1 == c2 && a1 == a2) by (nonlinear_arith)
            requires
                k1 == i1 as nat * 0x100_0000_0000 + e1 as nat * 0x1_0000_0000 + c1 as nat * 0x1_0000
                    + a1 as nat,
                k2 == i2 as nat * 0x100_0000_0000 + e2 as nat * 0x1_0000_0000 + c2 as nat * 0x1_0000
                    + a2 as nat,
                k1 == k2,
                e1 < 0x100,
                c1 < 0x1_0000,
                a1 < 0x1_0000,
                e2 < 0x100,
                c2 < 0x1_0000,
                a2 < 0x1_0000,
        ;
    }
}

/// The lookup from attribute keys to the id and kind of the configured point;
/// points with a Zigbee address are taken in order, a later one replacing an
/// earlier one with the same key.
pub open spec fn spec_point_lookup(points: Seq<PointConfig>) -> Map<u128, (u32, PointType)>
    decreases points.len(),
{
    if points.len() == 0 {
        Map::empty()
    } else {
        let prev = spec_point_lookup(points.drop_last());
        let p = points.last();
        match p.address {
            ProtocolAddress::Zigbee(z) => prev.insert(
                spec_lookup_key(z.ieee_address, z.endpoint, z.cluster_id, z.attribute_id),
                (p.id, p.point_type),
            ),
            _ => prev,
        }
    }
}

/// Build the lookup of the configured Zigbee points.
pub fn build_point_lookup(points: &[PointConfig]) -> (m: HashMap<u128, (u32, PointType)>)
    ensures
        m@ == spec_point_lookup(points@),
{
    let mut m: HashMap<u128, (u32, PointType)> = HashMap::new();
    let mut i: usize = 0;
    while i < points.len()
        invariant
            i <= points@.len(),
            m@ == spec_point_lookup(points@.take(i as int)),
        decreases points@.len() - i,
    {
        assert(points@.take(i + 1).drop_last() =~= points@.take(i as int));
        let p = &points[i];
        match &p.address {
            ProtocolAddress::Zigbee(z) => {
                let key = lookup_key(z.ieee_address, z.endpoint, z.cluster_id, z.attribute_id);
                m.insert(key, (p.id, p.point_type));
            },
            _ => {},
        }
        i += 1;
    }
    assert(points@.take(points@.len() as int) =~= points@);
    m
}

/// The point an attribute report is about, if one is configured for it.
pub fn resolve_report(
    lookup: &HashMap<u128, (u32, PointType)>,
    ieee: u64,
    endpoint: u8,
    cluster: u16,
    attribute: u16,
) -> (r: Option<(u32, PointType)>)
    ensures
        ({
            let k = spec_lookup_key(ieee, endpoint, cluster, attribute);
            r == (if lookup@.contains_key(k) {
                Some(lookup@[k])
            } else {
                None
            })
        }),
{
    let key = lookup_key(ieee, endpoint, cluster, attribute);
    match lookup.get(&key) {
        Some(v) => Some(*v),
        None => None,
    }
}

} // verus!
