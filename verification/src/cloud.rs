//! Point-cloud data model and the bounding-extent computation.

use vstd::prelude::*;

verus! {

/// One point of the cloud. Coordinates are fixed-point integers in a unit
/// chosen by the caller; the codec only ever uses their ratios to the
/// cloud's bounding extent, so the unit cancels out.
#[derive(Clone, Copy, Debug, PartialEq, Eq, Structural)]
pub struct Vertex {
    pub x: i64,
    pub y: i64,
    pub z: i64,
}

/// One decoded point. Each field is the signed numerator of a coordinate
/// over the channel depth (65535), under the decoder's fixed unit scale:
/// the coordinate it stands for is the field divided by 65535.
#[derive(Clone, Copy, Debug, PartialEq, Eq, Structural)]
pub struct DecodedPoint {
    pub x: i32,
    pub y: i32,
    pub z: i32,
}

/// The error kinds of the codec.
#[derive(Clone, Copy, Debug, PartialEq, Eq, Structural)]
pub enum CodecError {
    /// The encoder was given an empty cloud.
    EmptyInput,
    /// The grid edge computed to zero, so no pixel could be placed.
    InsufficientPoints,
    /// The bounding extent is zero, so normalization would divide by zero.
    ZeroExtent,
    /// A raster source did not expose 16-bit-per-channel RGB pixels.
    UnsupportedPixelFormat,
}

/// The running (min, max) pair after scanning one axis of the cloud in
/// order, exactly as the extent computation maintains it: both accumulators
/// start at 0, and each value either lowers the minimum or, failing that,
/// raises the maximum — never both.
pub open spec fn running_bounds(s: Seq<int>) -> (int, int)
    decreases s.len(),
{
    if s.len() == 0 {
        (0int, 0int)
    } else {
        let prev = running_bounds(s.drop_last());
        let v = s.last();
        if v < prev.0 {
            (v, prev.1)
        } else if v > prev.1 {
            (prev.0, v)
        } else {
            prev
        }
    }
}

/// The span (max minus min) of one axis under the zero-seeded running scan.
pub open spec fn axis_span(s: Seq<int>) -> int {
    running_bounds(s).1 - running_bounds(s).0
}

/// The x coordinates of a cloud, in order.
pub open spec fn xs_of(verts: Seq<Vertex>) -> Seq<int> {
    verts.map_values(|v: Vertex| v.x as int)
}

/// The y coordinates of a cloud, in order.
pub open spec fn ys_of(verts: Seq<Vertex>) -> Seq<int> {
    verts.map_values(|v: Vertex| v.y as int)
}

/// The z coordinates of a cloud, in order.
pub open spec fn zs_of(verts: Seq<Vertex>) -> Seq<int> {
    verts.map_values(|v: Vertex| v.z as int)
}

/// The larger of two integers.
pub open spec fn spec_max(a: int, b: int) -> int {
    if a >= b {
        a
    } else {
        b
    }
}

/// The bounding extent of a cloud: the largest per-axis span under the
/// zero-seeded running scan. Because both accumulators start at 0 rather
/// than at the first sample, an axis whose values are all positive or all
/// negative is measured against 0, and a value that would set a new
/// minimum never raises the maximum in the same step.
pub open spec fn spec_extent(verts: Seq<Vertex>) -> int {
    spec_max(
        axis_span(xs_of(verts)),
        spec_max(axis_span(ys_of(verts)), axis_span(zs_of(verts))),
    )
}

/// Computes the bounding extent of a cloud, or reports that the cloud is
/// empty and has no extent.
pub fn get_scale(verts: &Vec<Vertex>) -> (r: Result<i128, CodecError>)
    ensures
        match r {
            Ok(s) => verts@.len() > 0 && s == spec_extent(verts@) && 0 <= s <= u64::MAX,
            Err(e) => verts@.len() == 0 && e == CodecError::EmptyInput,
        },
{
    if verts.len() == 0 {
        return Err(CodecError::EmptyInput);
    }
    let mut min_x: i64 = 0;
    let mut max_x: i64 = 0;
    let mut min_y: i64 = 0;
    let mut max_y: i64 = 0;
    let mut min_z: i64 = 0;
    let mut max_z: i64 = 0;
    let mut i: usize = 0;
    while i < verts.len()
        invariant
            i <= verts@.len(),
            min_x <= 0 <= max_x,
            min_y <= 0 <= max_y,
            min_z <= 0 <= max_z,
            (min_x as int, max_x as int) == running_bounds(xs_of(verts@).take(i as int)),
            (min_y as int, max_y as int) == running_bounds(ys_of(verts@).take(i as int)),
            (min_z as int, max_z as int) == running_bounds(zs_of(verts@).take(i as int)),
        decreases verts@.len() - i,
    {
        let v = verts[i];
        proof {
            assert(xs_of(verts@).take(i + 1).drop_last() =~= xs_of(verts@).take(i as int));
            assert(ys_of(verts@).take(i + 1).drop_last() =~= ys_of(verts@).take(i as int));
            assert(zs_of(verts@).take(i + 1).drop_last() =~= zs_of(verts@).take(i as int));
            assert(xs_of(verts@).take(i + 1).last() == v.x as int);
            assert(ys_of(verts@).take(i + 1).last() == v.y as int);
            assert(zs_of(verts@).take(i + 1).last() == v.z as int);
        }
        if v.x < min_x {
            min_x = v.x;
        } else if v.x > max_x {
            max_x = v.x;
        }
        if v.y < min_y {
            min_y = v.y;
        } else if v.y > max_y {
            max_y = v.y;
        }
        if v.z < min_z {
            min_z = v.z;
        } else if v.z > max_z {
            max_z = v.z;
        }
        i = i + 1;
    }
    proof {
        assert(xs_of(verts@).take(verts@.len() as int) =~= xs_of(verts@));
        assert(ys_of(verts@).take(verts@.len() as int) =~= ys_of(verts@));
        assert(zs_of(verts@).take(verts@.len() as int) =~= zs_of(verts@));
    }
    let span_x: i128 = max_x as i128 - min_x as i128;
    let span_y: i128 = max_y as i128 - min_y as i128;
    let span_z: i128 = max_z as i128 - min_z as i128;
    let mut best: i128 = span_x;
    if span_y > best {
        best = span_y;
    }
    if span_z > best {
        best = span_z;
    }
    Ok(best)
}

} // verus!
