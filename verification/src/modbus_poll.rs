//! Modbus register polling: grouping points that lie close together into
//! segments read with one request each.
use vstd::prelude::*;
use crate::address::ProtocolAddress;
use crate::point::{spec_register_count, PointConfig};

verus! {

/// A run of registers read in one request, and the points in it as
/// `(address, register count, point)`.
#[derive(Debug, Clone)]
pub struct RegisterSegment<T> {
    pub start_address: u16,
    /// One past the last register of the last point added.
    pub end_address: u16,
    pub points: Vec<(u16, u16, T)>,
}

/// A segment in the abstract: its bounds and its points.
pub struct SegmentView<T> {
    pub start: int,
    pub end: int,
    pub points: Seq<(u16, u16, T)>,
}

/// Whether a point joins the current segment: its distance from the segment's
/// end (0 if it starts before) is at most `max_gap`, and the segment then spans at
/// most `max_batch` registers.
pub open spec fn spec_joins(start: int, end: int, addr: u16, count: u16, max_gap: u16, max_batch: u16) -> bool {
    let gap = if addr >= end {
        addr - end
    } else {
        0
    };
    let total = if addr + count >= start {
        addr + count - start
    } else {
        0
    };
    gap <= max_gap && total <= max_batch
}

/// The segments made from points taken in order: each point either extends the
/// last segment (moving its end to the point's end) or starts a new one.
pub open spec fn spec_segments<T>(pts: Seq<(u16, u16, T)>, max_gap: u16, max_batch: u16) -> Seq<SegmentView<T>>
    decreases pts.len(),
{
    if pts.len() == 0 {
        Seq::empty()
    } else {
        let prev = spec_segments(pts.drop_last(), max_gap, max_batch);
        let (addr, count, p) = pts.last();
        if prev.len() > 0 && spec_joins(prev.last().start, prev.last().end, addr, count, max_gap, max_batch) {
            prev.update(
                prev.len() - 1,
                SegmentView {
                    start: prev.last().start,
                    end: addr + count,
                    points: prev.last().points.push(pts.last()),
                },
            )
        } else {
            prev.push(SegmentView { start: addr as int, end: addr + count, points: seq![pts.last()] })
        }
    }
}

/// The abstract content of a segment.
pub open spec fn spec_segment_view<T>(s: RegisterSegment<T>) -> SegmentView<T> {
    SegmentView { start: s.start_address as int, end: s.end_address as int, points: s.points@ }
}

/// Whether every point ends within the 16-bit register space.
pub open spec fn spec_fits<T>(pts: Seq<(u16, u16, T)>) -> bool {
    forall|i: int| 0 <= i < pts.len() ==> (#[trigger] pts[i]).0 + pts[i].1 <= 0xFFFF
}

/// The points of segments, one segment after another.
pub open spec fn spec_flatten<T>(segs: Seq<SegmentView<T>>) -> Seq<(u16, u16, T)>
    decreases segs.len(),
{
    if segs.len() == 0 {
        Seq::empty()
    } else {
        spec_flatten(segs.drop_last()) + segs.last().points
    }
}

/// Group points (in the order given, normally sorted by address) into segments.
pub fn build_register_segments<T: Copy>(sorted_points: &[(u16, u16, T)], max_gap: u16, max_batch_size: u16) -> (segs:
    Vec<RegisterSegment<T>>)
    requires
        spec_fits(sorted_points@),
    ensures
        segs@.len() == spec_segments(sorted_points@, max_gap, max_batch_size).len(),
        forall|i: int|
            0 <= i < segs@.len() ==> spec_segment_view(#[trigger] segs@[i]) == spec_segments(
                sorted_points@,
                max_gap,
                max_batch_size,
            )[i],
{
    let mut segs: Vec<RegisterSegment<T>> = Vec::new();
    let mut i: usize = 0;
    while i < sorted_points.len()
        invariant
            i <= sorted_points@.len(),
            spec_fits(sorted_points@),
            segs@.len() == spec_segments(sorted_points@.take(i as int), max_gap, max_batch_size).len(),
            forall|k: int|
                0 <= k < segs@.len() ==> spec_segment_view(#[trigger] segs@[k]) == spec_segments(
                    sorted_points@.take(i as int),
                    max_gap,
                    max_batch_size,
                )[k],
        decreases sorted_points@.len() - i,
    {
        let (addr, count, p) = sorted_points[i];
        assert(sorted_points@.take(i + 1).drop_last() =~= sorted_points@.take(i as int));
        assert(sorted_points@[i as int].0 + sorted_points@[i as int].1 <= 0xFFFF);
        let n = segs.len();
        let ghost prev = spec_segments(sorted_points@.take(i as int), max_gap, max_batch_size);
        let mut joined = false;
        if n > 0 {
            let start = segs[n - 1].start_address;
            let end = segs[n - 1].end_address;
            let gap: u16 = if addr >= end { addr - end } else { 0 };
            let total: u16 = if addr + count >= start { addr + count - start } else { 0 };
            assert(spec_segment_view(segs@[n - 1]) == prev[n - 1]);
            if gap <= max_gap && total <= max_batch_size {
                let mut last = segs.pop().unwrap();
                last.end_address = addr + count;
                last.points.push((addr, count, p));
                segs.push(last);
                joined = true;
                proof {
                    let next = spec_segments(sorted_points@.take(i + 1), max_gap, max_batch_size);
                    assert(next.len() == prev.len());
                    assert forall|k: int| 0 <= k < segs@.len() implies spec_segment_view(
                        #[trigger] segs@[k],
                    ) == next[k] by {
                        if k == n - 1 {
                            assert(segs@[k].points@ =~= prev[k].points.push(sorted_points@[i as int]));
                        }
                    }
                }
            }
        }
        if !joined {
            let mut pts: Vec<(u16, u16, T)> = Vec::new();
            pts.push((addr, count, p));
            segs.push(RegisterSegment { start_address: addr, end_address: addr + count, points: pts });
            proof {
                let next = spec_segments(sorted_points@.take(i + 1), max_gap, max_batch_size);
                assert(next.len() == prev.len() + 1);
                assert forall|k: int| 0 <= k < segs@.len() implies spec_segment_view(
                    #[trigger] segs@[k],
                ) == next[k] by {
                    if k == n {
                        assert(segs@[k].points@ =~= seq![sorted_points@[i as int]]);
                    }
                }
            }
        }
        i += 1;
    }
    assert(sorted_points@.take(sorted_points@.len() as int) =~= sorted_points@);
    segs
}

/// The segments hold every point exactly once, in the order given: reading the
/// segments one after another gives back the point list.
pub proof fn lemma_segments_partition<T>(pts: Seq<(u16, u16, T)>, max_gap: u16, max_batch: u16)
    ensures
        spec_flatten(spec_segments(pts, max_gap, max_batch)) == pts,
    decreases pts.len(),
{
    if pts.len() > 0 {
        let prev = spec_segments(pts.drop_last(), max_gap, max_batch);
        lemma_segments_partition(pts.drop_last(), max_gap, max_batch);
        let segs = spec_segments(pts, max_gap, max_batch);
        let (addr, count, p) = pts.last();
        if prev.len() > 0 && spec_joins(prev.last().start, prev.last().end, addr, count, max_gap, max_batch) {
            assert(segs.drop_last() =~= prev.drop_last());
            assert(spec_flatten(prev) == spec_flatten(prev.drop_last()) + prev.last().points);
            assert(segs.last().points == prev.last().points.push(pts.last()));
            assert(spec_flatten(segs) =~= spec_flatten(prev) + seq![pts.last()]);
        } else {
            assert(segs.drop_last() =~= prev);
            assert(spec_flatten(segs) =~= spec_flatten(prev) + seq![pts.last()]);
        }
        assert(pts.drop_last().push(pts.last()) =~= pts);
    }
}

/// Every segment starts at its first point and ends where its last point ends,
/// and no segment is empty.
pub proof fn lemma_segment_bounds<T>(pts: Seq<(u16, u16, T)>, max_gap: u16, max_batch: u16, k: int)
    requires
        0 <= k < spec_segments(pts, max_gap, max_batch).len(),
    ensures
        ({
            let s = spec_segments(pts, max_gap, max_batch)[k];
            &&& s.points.len() > 0
            &&& s.start == s.points[0].0
            &&& s.end == s.points.last().0 + s.points.last().1
        }),
    decreases pts.len(),
{
    if pts.len() > 0 {
        let prev = spec_segments(pts.drop_last(), max_gap, max_batch);
        if k < prev.len() {
            lemma_segment_bounds(pts.drop_last(), max_gap, max_batch, k);
        }
        if prev.len() > 0 {
            lemma_segment_bounds(pts.drop_last(), max_gap, max_batch, prev.len() - 1);
        }
    }
}


/// The registers of each point of a segment read from `start`: `(point, its
/// registers)` for every point whose registers all lie within `regs`, in order.
pub open spec fn spec_point_registers<T>(pts: Seq<(u16, u16, T)>, start: u16, regs: Seq<u16>) -> Seq<(T, Seq<u16>)>
    decreases pts.len(),
{
    if pts.len() == 0 {
        Seq::empty()
    } else {
        let prev = spec_point_registers(pts.drop_last(), start, regs);
        let (addr, count, p) = pts.last();
        let offset = addr - start;
        if offset + count <= regs.len() {
            prev.push((p, regs.subrange(offset, offset + count)))
        } else {
            prev
        }
    }
}

/// Split the registers read for a segment among its points; a point whose
/// registers are not all there is left out.
pub fn segment_point_registers<T: Copy>(segment: &RegisterSegment<T>, registers: &[u16]) -> (r: Vec<(T, Vec<u16>)>)
    requires
        forall|i: int|
            0 <= i < segment.points@.len() ==> (#[trigger] segment.points@[i]).0 >= segment.start_address,
    ensures
        r@.len() == spec_point_registers(segment.points@, segment.start_address, registers@).len(),
        forall|k: int|
            0 <= k < r@.len() ==> {
                let e = spec_point_registers(segment.points@, segment.start_address, registers@)[k];
                &&& (#[trigger] r@[k]).0 == e.0
                &&& r@[k].1@ == e.1
            },
{
    let pts = &segment.points;
    let start = segment.start_address;
    let mut out: Vec<(T, Vec<u16>)> = Vec::new();
    let mut i: usize = 0;
    while i < pts.len()
        invariant
            i <= pts@.len(),
            pts == segment.points,
            start == segment.start_address,
            forall|j: int| 0 <= j < pts@.len() ==> (#[trigger] pts@[j]).0 >= start,
            out@.len() == spec_point_registers(pts@.take(i as int), start, registers@).len(),
            forall|k: int|
                0 <= k < out@.len() ==> {
                    let e = spec_point_registers(pts@.take(i as int), start, registers@)[k];
                    &&& (#[trigger] out@[k]).0 == e.0
                    &&& out@[k].1@ == e.1
                },
        decreases pts@.len() - i,
    {
        assert(pts@.take(i + 1).drop_last() =~= pts@.take(i as int));
        let (addr, count, p) = pts[i];
        assert(addr >= start);
        let offset: usize = (addr - start) as usize;
        let end: usize = offset + count as usize;
        if end <= registers.len() {
            let regs = slice_to_vec(registers, offset, end);
            out.push((p, regs));
        }
        i += 1;
    }
    assert(pts@.take(pts@.len() as int) =~= pts@);
    out
}

// ── Reading a group of points ──────────────────────────────────────────────────

/// How a group of points of one slave and one function code is read.
#[derive(Debug, Clone)]
pub enum GroupRead {
    /// Nothing is read: there are no points, or the first is not a Modbus point.
    Nothing,
    /// Coils (FC 01) or discrete inputs (FC 02): one single-bit request per Modbus
    /// point, each given as `(index of the point, its register)`.
    Individually { slave_id: u8, function_code: u8, points: Vec<(usize, u16)> },
    /// Registers: one request per segment, each point in it given as
    /// `(register, register count, index of the point)`.
    Batched { slave_id: u8, function_code: u8, segments: Vec<RegisterSegment<usize>> },
}

/// The Modbus points of a group as `(index, register)`, in order; other points
/// are skipped.
pub open spec fn spec_coil_points(points: Seq<PointConfig>) -> Seq<(usize, u16)>
    decreases points.len(),
{
    if points.len() == 0 {
        Seq::empty()
    } else {
        let prev = spec_coil_points(points.drop_last());
        match points.last().address {
            ProtocolAddress::Modbus(a) => prev.push(((points.len() - 1) as usize, a.register)),
            _ => prev,
        }
    }
}

/// The Modbus points of a group as `(register, register count, index)`, in
/// order; other points are skipped.
pub open spec fn spec_register_points(points: Seq<PointConfig>) -> Seq<(u16, u16, usize)>
    decreases points.len(),
{
    if points.len() == 0 {
        Seq::empty()
    } else {
        let prev = spec_register_points(points.drop_last());
        match points.last().address {
            ProtocolAddress::Modbus(a) => prev.push(
                (a.register, spec_register_count(a.format), (points.len() - 1) as usize),
            ),
            _ => prev,
        }
    }
}

/// Whether every Modbus point of a group ends within the 16-bit register space.
pub open spec fn spec_group_fits(points: Seq<PointConfig>) -> bool {
    forall|i: int|
        #![trigger points[i]]
        0 <= i < points.len() ==> match points[i].address {
            ProtocolAddress::Modbus(a) => a.register + spec_register_count(a.format) <= 0xFFFF,
            _ => true,
        }
}

proof fn lemma_register_points_fit(points: Seq<PointConfig>)
    requires
        spec_group_fits(points),
    ensures
        spec_fits(spec_register_points(points)),
    decreases points.len(),
{
    if points.len() > 0 {
        let q = points.drop_last();
        assert forall|i: int| 0 <= i < q.len() implies match (#[trigger] q[i]).address {
            ProtocolAddress::Modbus(a) => a.register + spec_register_count(a.format) <= 0xFFFF,
            _ => true,
        } by {
            assert(q[i] == points[i]);
        }
        lemma_register_points_fit(q);
        assert(points.last() == points[points.len() - 1]);
    }
}

fn coil_points(points: &[PointConfig]) -> (r: Vec<(usize, u16)>)
    ensures
        r@ == spec_coil_points(points@),
{
    let mut out: Vec<(usize, u16)> = Vec::new();
    let mut i: usize = 0;
    while i < points.len()
        invariant
            i <= points@.len(),
            out@ == spec_coil_points(points@.take(i as int)),
        decreases points@.len() - i,
    {
        assert(points@.take(i + 1).drop_last() =~= points@.take(i as int));
        if let ProtocolAddress::Modbus(a) = &points[i].address {
            out.push((i, a.register));
        }
        i += 1;
    }
    assert(points@.take(points@.len() as int) =~= points@);
    out
}

fn register_points(points: &[PointConfig]) -> (r: Vec<(u16, u16, usize)>)
    ensures
        r@ == spec_register_points(points@),
{
    let mut out: Vec<(u16, u16, usize)> = Vec::new();
    let mut i: usize = 0;
    while i < points.len()
        invariant
            i <= points@.len(),
            out@ == spec_register_points(points@.take(i as int)),
        decreases points@.len() - i,
    {
        assert(points@.take(i + 1).drop_last() =~= points@.take(i as int));
        if let ProtocolAddress::Modbus(a) = &points[i].address {
            out.push((a.register, a.format.register_count(), i));
        }
        i += 1;
    }
    assert(points@.take(points@.len() as int) =~= points@);
    out
}

/// Decide how to read a group of points that share a slave and a function code
/// (taken from the first point): nothing when the group is empty or its first
/// point is not a Modbus point; coils and discrete inputs one by one; registers
/// in segments of at most `max_batch_size` registers with gaps of at most
/// `max_gap`.
pub fn plan_point_group(points: &[PointConfig], max_batch_size: u16, max_gap: u16) -> (r: GroupRead)
    requires
        spec_group_fits(points@),
    ensures
        points@.len() == 0 || !(points@[0].address is Modbus) ==> r is Nothing,
        points@.len() > 0 ==> match points@[0].address {
            ProtocolAddress::Modbus(a) => if a.function_code == 1 || a.function_code == 2 {
                r matches GroupRead::Individually { slave_id, function_code, points: v }
                    && slave_id == a.slave_id && function_code == a.function_code
                    && v@ == spec_coil_points(points@)
            } else {
                r matches GroupRead::Batched { slave_id, function_code, segments }
                    && slave_id == a.slave_id && function_code == a.function_code
                    && segments@.len() == spec_segments(spec_register_points(points@), max_gap, max_batch_size).len()
                    && forall|k: int| 0 <= k < segments@.len() ==> spec_segment_view(#[trigger] segments@[k])
                        == spec_segments(spec_register_points(points@), max_gap, max_batch_size)[k]
            },
            _ => true,
        },
{
    if points.len() == 0 {
        return GroupRead::Nothing;
    }
    let (slave_id, function_code) = match &points[0].address {
        ProtocolAddress::Modbus(a) => (a.slave_id, a.function_code),
        _ => return GroupRead::Nothing,
    };
    if function_code == 1 || function_code == 2 {
        return GroupRead::Individually { slave_id, function_code, points: coil_points(points) };
    }
    let pts = register_points(points);
    proof {
        lemma_register_points_fit(points@);
    }
    let segments = build_register_segments(pts.as_slice(), max_gap, max_batch_size);
    GroupRead::Batched { slave_id, function_code, segments }
}

/// The request that reads a segment, `(first register, register count)`: made
/// for holding (FC 03) and input (FC 04) registers only.
pub fn segment_request<T>(function_code: u8, segment: &RegisterSegment<T>) -> (r: Option<(u16, u16)>)
    requires
        segment.start_address <= segment.end_address,
    ensures
        r == (if function_code == 3 || function_code == 4 {
            Some((segment.start_address, (segment.end_address - segment.start_address) as u16))
        } else {
            None::<(u16, u16)>
        }),
{
    let total = segment.end_address - segment.start_address;
    if function_code == 3 || function_code == 4 {
        Some((segment.start_address, total))
    } else {
        None
    }
}

fn slice_to_vec(v: &[u16], lo: usize, hi: usize) -> (r: Vec<u16>)
    requires
        lo <= hi <= v@.len(),
    ensures
        r@ == v@.subrange(lo as int, hi as int),
{
    let mut r: Vec<u16> = Vec::new();
    let mut k: usize = lo;
    while k < hi
        invariant
            lo <= k <= hi <= v@.len(),
            r@ == v@.subrange(lo as int, k as int),
        decreases hi - k,
    {
        r.push(v[k]);
        k += 1;
        assert(r@ =~= v@.subrange(lo as int, k as int));
    }
    r
}

} // verus!
