//! Trusted boundary to the `image` crate's pixel buffer, the raster grid
//! that the codec fills and reads.
//!
//! `image::ImageBuffer` cannot be declared to the verifier (its `P: Pixel`
//! trait bound is out of reach), so the grid holds the buffer in a hidden
//! field and the contracts speak of it through three names: its width, its
//! height, and the map from pixel coordinates to channel triples. The raw
//! row-major layout that the conversion contracts state is the one the
//! crate's source documents: channel `c` of pixel `(x, y)` sits at index
//! `3 * (y * width + x) + c`.

use vstd::prelude::*;

verus! {

/// A square-or-rectangular grid of 16-bit RGB pixels, backed by the
/// `image` crate's buffer.
#[verifier::external_body]
pub struct RasterGrid {
    buf: image::ImageBuffer<image::Rgb<u16>, Vec<u16>>,
}

/// The width that a raster grid was made with.
pub uninterp spec fn img_width(g: RasterGrid) -> u32;

/// The height that a raster grid was made with.
pub uninterp spec fn img_height(g: RasterGrid) -> u32;

/// What a raster grid holds: the channel triple at each in-bounds pixel
/// coordinate. The map is read as total — at an out-of-bounds coordinate
/// it holds the zero triple — so that a write can be stated as a map
/// update; the contracts below only ever relate in-bounds entries to the
/// buffer.
pub uninterp spec fn img_pix(g: RasterGrid) -> Map<(int, int), (u16, u16, u16)>;

/// Relies on `image::ImageBuffer::new`: builds a zeroed buffer of the
/// given dimensions. It panics only when the element count
/// `3 * width * height` overflows `usize`, which the precondition rules
/// out.
#[verifier::external_body]
pub(crate) fn new_rgb16(width: u32, height: u32) -> (r: RasterGrid)
    requires
        3 * (width as int) * (height as int) <= usize::MAX,
    ensures
        img_width(r) == width,
        img_height(r) == height,
{
    RasterGrid { buf: image::ImageBuffer::new(width, height) }
}

/// Relies on `image::ImageBuffer::put_pixel`: writes the channel triple at
/// `(x, y)` and leaves every other pixel and the dimensions unchanged. It
/// panics when `(x, y)` is out of bounds, which the precondition rules
/// out.
#[verifier::external_body]
pub(crate) fn put_rgb16(g: &mut RasterGrid, x: u32, y: u32, red: u16, green: u16, blue: u16)
    requires
        x < img_width(*old(g)),
        y < img_height(*old(g)),
    ensures
        img_width(*final(g)) == img_width(*old(g)),
        img_height(*final(g)) == img_height(*old(g)),
        img_pix(*final(g)) == img_pix(*old(g)).insert((x as int, y as int), (red, green, blue)),
{
    g.buf.put_pixel(x, y, image::Rgb([red, green, blue]))
}

/// Relies on `image::ImageBuffer::get_pixel`: reads the channel triple at
/// `(x, y)`. It panics when `(x, y)` is out of bounds, which the
/// precondition rules out.
#[verifier::external_body]
pub(crate) fn get_rgb16(g: &RasterGrid, x: u32, y: u32) -> (r: (u16, u16, u16))
    requires
        x < img_width(*g),
        y < img_height(*g),
    ensures
        r == img_pix(*g)[(x as int, y as int)],
{
    let p = g.buf.get_pixel(x, y);
    (p.0[0], p.0[1], p.0[2])
}

/// Relies on `image::ImageBuffer::width`.
#[verifier::external_body]
pub fn raster_width(g: &RasterGrid) -> (r: u32)
    ensures
        r == img_width(*g),
{
    g.buf.width()
}

/// Relies on `image::ImageBuffer::height`.
#[verifier::external_body]
pub fn raster_height(g: &RasterGrid) -> (r: u32)
    ensures
        r == img_height(*g),
{
    g.buf.height()
}

/// Relies on `image::ImageBuffer::from_raw`: wraps row-major channel data
/// as a grid. The call returns `Some` exactly when the data is long
/// enough, that is when `3 * width * height` fits in `usize` and the
/// vector holds at least that many channel values.
#[verifier::external_body]
pub fn raster_from_parts(width: u32, height: u32, data: Vec<u16>) -> (r: Option<RasterGrid>)
    ensures
        match r {
            Some(g) => {
                &&& 3 * (width as int) * (height as int) <= data@.len() <= usize::MAX
                &&& img_width(g) == width
                &&& img_height(g) == height
                &&& forall|x: int, y: int|
                    0 <= x < width && 0 <= y < height ==> #[trigger] img_pix(g)[(x, y)] == (
                        data@[3 * (y * width + x)],
                        data@[3 * (y * width + x) + 1],
                        data@[3 * (y * width + x) + 2],
                    )
            },
            None => 3 * (width as int) * (height as int) > data@.len(),
        },
{
    Some(RasterGrid { buf: image::ImageBuffer::from_raw(width, height, data)? })
}

/// Relies on `image::ImageBuffer::into_raw`: hands out the dimensions and
/// the row-major channel data of a grid.
#[verifier::external_body]
pub fn raster_into_parts(g: RasterGrid) -> (r: (u32, u32, Vec<u16>))
    ensures
        r.0 == img_width(g),
        r.1 == img_height(g),
        3 * (r.0 as int) * (r.1 as int) <= r.2@.len(),
        forall|x: int, y: int|
            0 <= x < r.0 && 0 <= y < r.1 ==> #[trigger] img_pix(g)[(x, y)] == (
                r.2@[3 * (y * r.0 + x)],
                r.2@[3 * (y * r.0 + x) + 1],
                r.2@[3 * (y * r.0 + x) + 2],
            ),
{
    let width = g.buf.width();
    let height = g.buf.height();
    (width, height, g.buf.into_raw())
}

} // verus!
