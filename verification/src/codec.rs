//! The core codec: grid sizing, channel quantization and dequantization,
//! the encoder and decoder over the raster grid, and the round-trip error
//! bounds.

use vstd::prelude::*;
use vstd::arithmetic::div_mod::lemma_fundamental_div_mod;
use vstd::arithmetic::div_mod::lemma_fundamental_div_mod_converse;
use vstd::arithmetic::div_mod::lemma_mod_division_less_than_divisor;
use crate::cloud::CodecError;
use crate::cloud::DecodedPoint;
use crate::cloud::Vertex;
use crate::cloud::get_scale;
use crate::cloud::spec_extent;
use crate::raster::RasterGrid;
use crate::raster::get_rgb16;
use crate::raster::img_height;
use crate::raster::img_pix;
use crate::raster::img_width;
use crate::raster::new_rgb16;
use crate::raster::put_rgb16;
use crate::raster::raster_height;
use crate::raster::raster_width;

verus! {

/// The number of representable discrete channel levels minus one: the
/// quantization depth of a 16-bit channel.
pub const DEPTH: u16 = 65535;

/// The quantized level of one coordinate `c` under extent `s`: the
/// normalized value `c / s + 1/2` times the depth, truncated toward zero
/// and saturated to the channel range. Stated over exact rationals,
/// `DEPTH * (c / s + 1/2) == DEPTH * (2c + s) / (2s)`.
pub open spec fn spec_quantize(c: int, s: int) -> int {
    if 2 * c + s <= 0 {
        0
    } else if 65535 * (2 * c + s) / (2 * s) > 65535 {
        65535
    } else {
        65535 * (2 * c + s) / (2 * s)
    }
}

/// The decoded numerator of one channel under the decoder's unit scale:
/// the coordinate it stands for is this value over the depth, since
/// `(q - DEPTH/2) / DEPTH * 2 == (2q - DEPTH) / DEPTH`.
pub open spec fn spec_dequantize(q: int) -> int {
    2 * q - 65535
}

/// Quantizes one coordinate to a 16-bit channel level.
pub fn quantize_channel(c: i64, s: i128) -> (r: u16)
    requires
        0 < s <= u64::MAX,
    ensures
        r == spec_quantize(c as int, s as int),
{
    let doubled: i128 = 2 * (c as i128) + s;
    if doubled <= 0 {
        0
    } else {
        proof {
            assert(65535 * (doubled as int) <= u128::MAX) by (nonlinear_arith)
                requires
                    0 < (doubled as int) < 0x40000000000000000,
            ;
        }
        let num: u128 = (DEPTH as u128) * (doubled as u128);
        let den: u128 = 2 * (s as u128);
        let q: u128 = num / den;
        if q > DEPTH as u128 {
            DEPTH
        } else {
            q as u16
        }
    }
}

/// Dequantizes one 16-bit channel level to a signed numerator over the
/// depth, under the decoder's unit scale.
pub fn dequantize_channel(q: u16) -> (r: i32)
    ensures
        r == spec_dequantize(q as int),
        -65535 <= r <= 65535,
{
    2 * (q as i32) - DEPTH as i32
}

/// Computes the grid edge for a cloud of `len` points: the integer square
/// root of `len`, so that the square grid holds as many of the points as
/// possible.
pub fn grid_edge(len: usize) -> (r: usize)
    ensures
        r * r <= len,
        (r + 1) * (r + 1) > len,
{
    let mut lo: usize = 0;
    let mut hi: usize = len;
    proof {
        assert((len + 1) * (len + 1) > len) by (nonlinear_arith)
            requires
                len >= 0,
        ;
    }
    while lo < hi
        invariant
            lo <= hi <= len,
            lo * lo <= len,
            (hi + 1) * (hi + 1) > len,
        decreases hi - lo,
    {
        let gap: usize = hi - lo;
        proof {
            assert(gap / 2 < gap) by (nonlinear_arith)
                requires
                    gap >= 1,
            ;
        }
        let mid: usize = lo + gap / 2 + 1;
        proof {
            assert((mid as int) * (mid as int) <= u128::MAX) by (nonlinear_arith)
                requires
                    0 <= (mid as int) <= u64::MAX,
            ;
        }
        let sq: u128 = (mid as u128) * (mid as u128);
        if sq <= len as u128 {
            lo = mid;
        } else {
            hi = mid - 1;
        }
    }
    lo
}

/// Whether channel triple `p` is the quantization of vertex `v` under
/// extent `s`.
pub open spec fn pixel_matches(p: (u16, u16, u16), v: Vertex, s: int) -> bool {
    &&& p.0 == spec_quantize(v.x as int, s)
    &&& p.1 == spec_quantize(v.y as int, s)
    &&& p.2 == spec_quantize(v.z as int, s)
}

/// Whether decoded point `p` is the dequantization of channel triple `c`.
pub open spec fn decoded_matches(p: DecodedPoint, c: (u16, u16, u16)) -> bool {
    &&& p.x == spec_dequantize(c.0 as int)
    &&& p.y == spec_dequantize(c.1 as int)
    &&& p.z == spec_dequantize(c.2 as int)
}

/// Whether the grid pixel at `(px, py)` holds the quantization, under the
/// cloud's bounding extent, of the point that the row-major layout assigns
/// to that pixel — the point with index `py * edge + px`, which the
/// square layout keeps within the cloud.
pub open spec fn encoded_cell(g: RasterGrid, verts: Seq<Vertex>, px: int, py: int) -> bool {
    let edge = img_width(g) as int;
    &&& py * edge + px < verts.len()
    &&& pixel_matches(img_pix(g)[(px, py)], verts[py * edge + px], spec_extent(verts))
}

/// Encodes a point cloud as a square 16-bit RGB raster grid.
///
/// The grid edge is the integer square root of the cloud's length, and
/// the pixel at `(px, py)` is the quantization of the point with index
/// `py * edge + px` under the cloud's bounding extent; points with index
/// at or beyond `edge * edge` are dropped and no pixel holds them. An
/// empty cloud has no extent and is rejected, and so is a cloud whose
/// extent is zero, since normalization would divide by zero.
pub fn encode_cloud(verts: &Vec<Vertex>) -> (r: Result<RasterGrid, CodecError>)
    requires
        3 * verts@.len() <= usize::MAX,
    ensures
        match r {
            Ok(g) => {
                let edge = img_width(g) as int;
                &&& verts@.len() > 0
                &&& spec_extent(verts@) > 0
                &&& img_height(g) == img_width(g)
                &&& edge * edge <= verts@.len() < (edge + 1) * (edge + 1)
                &&& forall|px: int, py: int|
                    0 <= px < edge && 0 <= py < edge ==> #[trigger] encoded_cell(g, verts@, px, py)
            },
            Err(e) => {
                &&& (verts@.len() == 0 || spec_extent(verts@) == 0)
                &&& e == (if verts@.len() == 0 {
                    CodecError::EmptyInput
                } else {
                    CodecError::ZeroExtent
                })
            },
        },
{
    let scale: i128 = match get_scale(verts) {
        Ok(s) => s,
        Err(e) => {
            return Err(e);
        },
    };
    let edge: usize = grid_edge(verts.len());
    if edge == 0 {
        proof {
            assert(verts@.len() == 0) by (nonlinear_arith)
                requires
                    edge as int == 0,
                    (edge + 1) * (edge + 1) > verts@.len(),
                    0 <= verts@.len(),
            ;
            assert(false);
        }
        return Err(CodecError::InsufficientPoints);
    }
    if scale == 0 {
        return Err(CodecError::ZeroExtent);
    }
    proof {
        assert(edge <= u32::MAX) by (nonlinear_arith)
            requires
                (edge as int) * (edge as int) <= usize::MAX,
                usize::MAX <= u64::MAX,
        ;
        assert(3 * (edge as int) * (edge as int) <= usize::MAX) by (nonlinear_arith)
            requires
                (edge as int) * (edge as int) <= verts@.len(),
                3 * verts@.len() <= usize::MAX,
        ;
    }
    let edge32: u32 = edge as u32;
    let mut g: RasterGrid = new_rgb16(edge32, edge32);
    let mut i: usize = 0;
    while i < verts.len()
        invariant
            i <= verts@.len(),
            0 < scale <= u64::MAX,
            scale == spec_extent(verts@),
            1 <= edge,
            edge == edge32,
            (edge as int) * (edge as int) <= verts@.len() < ((edge as int) + 1) * ((edge as int)
                + 1),
            img_width(g) == edge32,
            img_height(g) == edge32,
            forall|j: int|
                0 <= j < i && j < (edge as int) * (edge as int) ==> pixel_matches(
                    #[trigger] img_pix(g)[(j % (edge as int), j / (edge as int))],
                    verts@[j],
                    scale as int,
                ),
        decreases verts@.len() - i,
    {
        let px: usize = i % edge;
        let py: usize = i / edge;
        if px < edge && py < edge {
            proof {
                lemma_mod_division_less_than_divisor(i as int, edge as int);
                lemma_fundamental_div_mod(i as int, edge as int);
                assert((i as int) < (edge as int) * (edge as int)) by (nonlinear_arith)
                    requires
                        i as int == (edge as int) * ((i as int) / (edge as int)) + (i as int) % (
                        edge as int),
                        (i as int) / (edge as int) < edge as int,
                        0 <= (i as int) % (edge as int) < edge as int,
                ;
            }
            let v = verts[i];
            let red = quantize_channel(v.x, scale);
            let green = quantize_channel(v.y, scale);
            let blue = quantize_channel(v.z, scale);
            put_rgb16(&mut g, px as u32, py as u32, red, green, blue);
            proof {
                let e = edge as int;
                assert forall|j: int| 0 <= j < i + 1 && j < e * e implies pixel_matches(
                    #[trigger] img_pix(g)[(j % e, j / e)],
                    verts@[j],
                    scale as int,
                ) by {
                    lemma_mod_division_less_than_divisor(j, e);
                    lemma_fundamental_div_mod(j, e);
                    lemma_mod_division_less_than_divisor(i as int, e);
                    lemma_fundamental_div_mod(i as int, e);
                    if j < i {
                        if j % e == (i as int) % e && j / e == (i as int) / e {
                            assert(j == i as int) by (nonlinear_arith)
                                requires
                                    j == e * (j / e) + j % e,
                                    i as int == e * ((i as int) / e) + (i as int) % e,
                                    j % e == (i as int) % e,
                                    j / e == (i as int) / e,
                            ;
                        }
                        assert((j % e, j / e) != ((i as int) % e, (i as int) / e));
                    }
                }
            }
        } else {
            proof {
                let e = edge as int;
                lemma_mod_division_less_than_divisor(i as int, e);
                lemma_fundamental_div_mod(i as int, e);
                assert((i as int) >= e * e) by (nonlinear_arith)
                    requires
                        i as int == e * ((i as int) / e) + (i as int) % e,
                        (i as int) / e >= e,
                        0 <= (i as int) % e,
                        e >= 1,
                ;
            }
        }
        i = i + 1;
    }
    proof {
        let e = edge as int;
        let ew = img_width(g) as int;
        assert(ew == e);
        assert forall|px2: int, py2: int|
            0 <= px2 < ew && 0 <= py2 < ew implies #[trigger] encoded_cell(
            g,
            verts@,
            px2,
            py2,
        ) by {
            let j = py2 * e + px2;
            assert(0 <= j && j < e * e) by (nonlinear_arith)
                requires
                    0 <= px2 < e,
                    0 <= py2 < e,
                    j == py2 * e + px2,
            ;
            lemma_fundamental_div_mod_converse(j, e, py2, px2);
            assert(j < verts@.len());
            assert(pixel_matches(img_pix(g)[(j % e, j / e)], verts@[j], scale as int));
            assert(py2 * ew + px2 == j) by (nonlinear_arith)
                requires
                    ew == e,
                    j == py2 * e + px2,
            ;
            assert(img_pix(g)[(px2, py2)] == img_pix(g)[(j % e, j / e)]);
            assert(encoded_cell(g, verts@, px2, py2));
        }
        assert(ew * ew <= verts@.len()) by (nonlinear_arith)
            requires
                ew == e,
                e * e <= verts@.len(),
        ;
        assert(verts@.len() < (ew + 1) * (ew + 1)) by (nonlinear_arith)
            requires
                ew == e,
                verts@.len() < (e + 1) * (e + 1),
        ;
    }
    Ok(g)
}

/// Decodes a raster grid back to a point cloud.
///
/// Every pixel yields one point, in row-major order, so the output holds
/// exactly `width * height` points whatever the grid holds; each channel
/// becomes the signed numerator of one coordinate over the depth, under
/// the decoder's fixed unit scale.
pub fn decode_image(img: &RasterGrid) -> (r: Vec<DecodedPoint>)
    requires
        (img_width(*img) as int) * (img_height(*img) as int) <= usize::MAX,
    ensures
        r@.len() == (img_width(*img) as int) * (img_height(*img) as int),
        forall|k: int|
            0 <= k < r@.len() ==> decoded_matches(
                #[trigger] r@[k],
                img_pix(*img)[(k % (img_width(*img) as int), k / (img_width(*img) as int))],
            ),
{
    let w: u32 = raster_width(img);
    let h: u32 = raster_height(img);
    let total: usize = (w as usize) * (h as usize);
    let mut out: Vec<DecodedPoint> = Vec::new();
    let mut i: usize = 0;
    while i < total
        invariant
            i <= total,
            w == img_width(*img),
            h == img_height(*img),
            total == (w as int) * (h as int),
            out@.len() == i,
            forall|k: int|
                0 <= k < i ==> decoded_matches(
                    #[trigger] out@[k],
                    img_pix(*img)[(k % (w as int), k / (w as int))],
                ),
        decreases total - i,
    {
        proof {
            assert(w >= 1) by (nonlinear_arith)
                requires
                    (i as int) < (w as int) * (h as int),
                    0 <= i as int,
                    0 <= w as int,
                    0 <= h as int,
            ;
            lemma_mod_division_less_than_divisor(i as int, w as int);
            lemma_fundamental_div_mod(i as int, w as int);
            assert((i as int) / (w as int) < h as int) by (nonlinear_arith)
                requires
                    i as int == (w as int) * ((i as int) / (w as int)) + (i as int) % (w as int),
                    (i as int) < (w as int) * (h as int),
                    0 <= (i as int) % (w as int) < w as int,
                    w as int >= 1,
            ;
        }
        let px: usize = i % (w as usize);
        let py: usize = i / (w as usize);
        let pix = get_rgb16(img, px as u32, py as u32);
        out.push(
            DecodedPoint {
                x: dequantize_channel(pix.0),
                y: dequantize_channel(pix.1),
                z: dequantize_channel(pix.2),
            },
        );
        i = i + 1;
    }
    out
}

/// Law: quantizing a coordinate that lies within half the extent on either
/// side of zero and then decoding the level at unit scale loses less than
/// two depth steps. With `q` the quantized level, the decoded numerator
/// `2q - DEPTH` over the depth falls short of the normalized coordinate
/// `2c / s` by at least zero and by less than `2 / DEPTH`; the ensured
/// inequalities are that statement multiplied through by `DEPTH * s`.
pub proof fn lemma_round_trip_error(c: int, s: int)
    requires
        0 < s,
        -s <= 2 * c <= s,
    ensures
        0 <= 2 * 65535 * c - spec_dequantize(spec_quantize(c, s)) * s < 2 * s,
{
    let n = 65535 * (2 * c + s);
    let d = 2 * s;
    let q = n / d;
    let rem = n % d;
    lemma_fundamental_div_mod(n, d);
    assert(0 <= rem < d) by (nonlinear_arith)
        requires
            n == d * q + rem,
            rem == n % d,
            d > 0,
    ;
    assert(0 <= n <= 65535 * d) by (nonlinear_arith)
        requires
            n == 65535 * (2 * c + s),
            d == 2 * s,
            s > 0,
            -s <= 2 * c <= s,
    ;
    assert(0 <= q <= 65535) by (nonlinear_arith)
        requires
            n == d * q + rem,
            0 <= rem < d,
            0 <= n <= 65535 * d,
            d > 0,
    ;
    if 2 * c + s <= 0 {
        assert(2 * c + s == 0);
        assert(n == 0) by (nonlinear_arith)
            requires
                n == 65535 * (2 * c + s),
                2 * c + s == 0,
        ;
        assert(spec_quantize(c, s) == 0);
        assert(2 * 65535 * c - spec_dequantize(0) * s == n) by (nonlinear_arith)
            requires
                n == 65535 * (2 * c + s),
                spec_dequantize(0) == -65535,
        ;
        assert(0 <= n < d);
    } else {
        assert(spec_quantize(c, s) == q);
        assert(2 * 65535 * c - spec_dequantize(q) * s == rem) by (nonlinear_arith)
            requires
                n == d * q + rem,
                n == 65535 * (2 * c + s),
                d == 2 * s,
                spec_dequantize(q) == 2 * q - 65535,
        ;
    }
}

/// Law: the encode-decode round trip is not an identity, but its error is
/// pinned by the quantization step. Take a grid cell that encodes a point
/// of the cloud and a point decoded from that cell: whenever a coordinate
/// of the encoded point has magnitude at most half the bounding extent
/// `s`, the decoded numerator `d` over the depth falls short of the
/// normalized coordinate `2c / s` by at least zero and by less than
/// `2 / 65535` — the ensured inequalities are that statement multiplied
/// through by `65535 * s`. Only when `s == 2` does the decoder's fixed
/// unit scale make the reconstruction absolute.
pub proof fn lemma_cloud_round_trip(
    g: RasterGrid,
    verts: Seq<Vertex>,
    p: DecodedPoint,
    px: int,
    py: int,
)
    requires
        encoded_cell(g, verts, px, py),
        decoded_matches(p, img_pix(g)[(px, py)]),
        0 < spec_extent(verts),
        ({
            let v = verts[py * (img_width(g) as int) + px];
            let s = spec_extent(verts);
            &&& -s <= 2 * v.x <= s
            &&& -s <= 2 * v.y <= s
            &&& -s <= 2 * v.z <= s
        }),
    ensures
        ({
            let v = verts[py * (img_width(g) as int) + px];
            let s = spec_extent(verts);
            &&& 0 <= 2 * 65535 * v.x - p.x * s < 2 * s
            &&& 0 <= 2 * 65535 * v.y - p.y * s < 2 * s
            &&& 0 <= 2 * 65535 * v.z - p.z * s < 2 * s
        }),
{
    let v = verts[py * (img_width(g) as int) + px];
    let s = spec_extent(verts);
    lemma_round_trip_error(v.x as int, s);
    lemma_round_trip_error(v.y as int, s);
    lemma_round_trip_error(v.z as int, s);
    assert(p.x == spec_dequantize(spec_quantize(v.x as int, s)));
    assert(p.y == spec_dequantize(spec_quantize(v.y as int, s)));
    assert(p.z == spec_dequantize(spec_quantize(v.z as int, s)));
    assert(0 <= 2 * 65535 * v.x - p.x * s < 2 * s) by (nonlinear_arith)
        requires
            p.x == spec_dequantize(spec_quantize(v.x as int, s)),
            0 <= 2 * 65535 * (v.x as int) - spec_dequantize(spec_quantize(v.x as int, s)) * s < 2
                * s,
    ;
    assert(0 <= 2 * 65535 * v.y - p.y * s < 2 * s) by (nonlinear_arith)
        requires
            p.y == spec_dequantize(spec_quantize(v.y as int, s)),
            0 <= 2 * 65535 * (v.y as int) - spec_dequantize(spec_quantize(v.y as int, s)) * s < 2
                * s,
    ;
    assert(0 <= 2 * 65535 * v.z - p.z * s < 2 * s) by (nonlinear_arith)
        requires
            p.z == spec_dequantize(spec_quantize(v.z as int, s)),
            0 <= 2 * 65535 * (v.z as int) - spec_dequantize(spec_quantize(v.z as int, s)) * s < 2
                * s,
    ;
}

} // verus!
