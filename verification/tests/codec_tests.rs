use point_raster::cloud::CodecError;
use point_raster::cloud::Vertex;
use point_raster::cloud::get_scale;
use point_raster::codec::decode_image;
use point_raster::codec::dequantize_channel;
use point_raster::codec::encode_cloud;
use point_raster::codec::grid_edge;
use point_raster::codec::quantize_channel;
use point_raster::raster::raster_from_parts;
use point_raster::raster::raster_into_parts;

fn v(x: i64, y: i64, z: i64) -> Vertex {
    Vertex { x, y, z }
}

#[test]
fn extent_positive_axis_is_origin_biased() {
    // All coordinates 5 on one axis, 0 elsewhere: the zero-seeded maximum
    // tracks 5 and the minimum stays 0, so the span is 5, not 0.
    let r = get_scale(&vec![v(5, 0, 0)]).unwrap();
    assert_eq!(r, 5);
}

#[test]
fn extent_negative_axis_is_origin_biased() {
    // The minimum tracks -5 and the maximum stays 0: span 5 again.
    let r = get_scale(&vec![v(-5, 0, 0)]).unwrap();
    assert_eq!(r, 5);
}

#[test]
fn extent_mixed_population_spans_both_sides() {
    let r = get_scale(&vec![v(5, 0, 0), v(-5, 0, 0)]).unwrap();
    assert_eq!(r, 10);
}

#[test]
fn extent_picks_largest_axis_span() {
    let r = get_scale(&vec![v(2, 0, -3), v(-4, 1, 3)]).unwrap();
    // x spans -4..2 = 6, y spans 0..1 = 1, z spans -3..3 = 6.
    assert_eq!(r, 6);
}

#[test]
fn extent_of_empty_cloud_is_an_error() {
    assert_eq!(get_scale(&vec![]), Err(CodecError::EmptyInput));
}

#[test]
fn grid_edge_is_integer_square_root() {
    assert_eq!(grid_edge(0), 0);
    assert_eq!(grid_edge(1), 1);
    assert_eq!(grid_edge(3), 1);
    assert_eq!(grid_edge(4), 2);
    assert_eq!(grid_edge(8), 2);
    assert_eq!(grid_edge(9), 3);
    assert_eq!(grid_edge(24), 4);
    assert_eq!(grid_edge(25), 5);
    assert_eq!(grid_edge(1_000_000), 1000);
}

#[test]
fn quantize_channel_exact_levels() {
    // With extent 6: level = trunc(65535 * (2c + 6) / 12), saturated.
    assert_eq!(quantize_channel(2, 6), 54612);
    assert_eq!(quantize_channel(0, 6), 32767);
    assert_eq!(quantize_channel(1, 6), 43690);
    assert_eq!(quantize_channel(3, 6), 65535);
    assert_eq!(quantize_channel(-3, 6), 0);
    // Out-of-range coordinates saturate instead of wrapping.
    assert_eq!(quantize_channel(-4, 6), 0);
    assert_eq!(quantize_channel(7, 6), 65535);
}

#[test]
fn dequantize_channel_exact_numerators() {
    assert_eq!(dequantize_channel(0), -65535);
    assert_eq!(dequantize_channel(32767), -1);
    assert_eq!(dequantize_channel(32768), 1);
    assert_eq!(dequantize_channel(65535), 65535);
    assert_eq!(dequantize_channel(54612), 43689);
}

#[test]
fn encode_empty_cloud_fails_with_empty_input() {
    assert!(matches!(encode_cloud(&vec![]), Err(CodecError::EmptyInput)));
}

#[test]
fn encode_single_origin_point_fails_with_zero_extent() {
    // The extent of [(0,0,0)] is 0; normalizing would divide by zero, so
    // the encoder reports it rather than producing garbage.
    assert!(matches!(encode_cloud(&vec![v(0, 0, 0)]), Err(CodecError::ZeroExtent)));
}

#[test]
fn encode_four_point_cloud_exact_pixels() {
    // Cloud (1,0,0), (0,1,0), (0,0,1), (0,0,0): extent 1, edge 2.
    // A zero coordinate maps to level 32767, a coordinate equal to the
    // extent overshoots the range and saturates to 65535.
    let cloud = vec![v(1, 0, 0), v(0, 1, 0), v(0, 0, 1), v(0, 0, 0)];
    let g = encode_cloud(&cloud).unwrap();
    let (w, h, data) = raster_into_parts(g);
    assert_eq!(w, 2);
    assert_eq!(h, 2);
    assert_eq!(data.len(), 12);
    assert_eq!(&data[0..3], &[65535, 32767, 32767]); // (0,0) <- index 0
    assert_eq!(&data[3..6], &[32767, 65535, 32767]); // (1,0) <- index 1
    assert_eq!(&data[6..9], &[32767, 32767, 65535]); // (0,1) <- index 2
    assert_eq!(&data[9..12], &[32767, 32767, 32767]); // (1,1) <- index 3
}

#[test]
fn encode_drops_points_beyond_edge_square() {
    // Five points still give a 2x2 grid; the fifth point is nowhere in it.
    let cloud = vec![v(1, 0, 0), v(0, 1, 0), v(0, 0, 1), v(0, 0, 0), v(0, 0, 0)];
    let g = encode_cloud(&cloud).unwrap();
    let (w, h, data) = raster_into_parts(g);
    assert_eq!(w, 2);
    assert_eq!(h, 2);
    assert_eq!(data.len(), 12);
    assert_eq!(&data[0..3], &[65535, 32767, 32767]);
    assert_eq!(&data[3..6], &[32767, 65535, 32767]);
    assert_eq!(&data[6..9], &[32767, 32767, 65535]);
    assert_eq!(&data[9..12], &[32767, 32767, 32767]);
}

#[test]
fn decode_yields_one_point_per_pixel() {
    // Whatever the grid holds, width * height points come out.
    let g = raster_from_parts(3, 2, vec![0u16; 18]).unwrap();
    let pts = decode_image(&g);
    assert_eq!(pts.len(), 6);
    for p in &pts {
        assert_eq!((p.x, p.y, p.z), (-65535, -65535, -65535));
    }
}

#[test]
fn decode_mid_gray_pixel_is_near_origin() {
    // A single pixel (32767, 32767, 32767) decodes to -1/65535 on each
    // axis: as close to the origin as the odd depth allows.
    let g = raster_from_parts(1, 1, vec![32767, 32767, 32767]).unwrap();
    let pts = decode_image(&g);
    assert_eq!(pts.len(), 1);
    assert_eq!((pts[0].x, pts[0].y, pts[0].z), (-1, -1, -1));
}

#[test]
fn decode_keeps_row_major_order() {
    let data: Vec<u16> = (0..12u16).collect();
    let g = raster_from_parts(2, 2, data).unwrap();
    let pts = decode_image(&g);
    assert_eq!(pts.len(), 4);
    // Pixel (x, y) sits at data index 3 * (y * 2 + x).
    assert_eq!(pts[0].x, dequantize_channel(0));
    assert_eq!(pts[1].x, dequantize_channel(3));
    assert_eq!(pts[2].x, dequantize_channel(6));
    assert_eq!(pts[3].x, dequantize_channel(9));
}

#[test]
fn raster_from_parts_rejects_short_data() {
    assert!(raster_from_parts(2, 2, vec![0u16; 11]).is_none());
}

#[test]
fn raster_parts_round_trip() {
    let data: Vec<u16> = (0..18u16).map(|i| i * 1000).collect();
    let g = raster_from_parts(3, 2, data.clone()).unwrap();
    let (w, h, back) = raster_into_parts(g);
    assert_eq!((w, h), (3, 2));
    assert_eq!(back, data);
}

#[test]
fn round_trip_error_stays_within_quantization_step() {
    // Cloud (2,0,-3), (-4,1,3): extent 6, edge 1, so only the first point
    // is encoded. Its coordinates lie within half the extent, and each
    // decoded numerator d satisfies 0 <= 2*65535*c - d*s < 2*s.
    let cloud = vec![v(2, 0, -3), v(-4, 1, 3)];
    let s: i64 = 6;
    let g = encode_cloud(&cloud).unwrap();
    let pts = decode_image(&g);
    let (w, h, _) = raster_into_parts(g);
    assert_eq!((w, h), (1, 1));
    assert_eq!(pts.len(), 1);
    assert_eq!((pts[0].x, pts[0].y, pts[0].z), (43689, -1, -65535));
    for (c, d) in [(2i64, 43689i64), (0, -1), (-3, -65535)] {
        let err = 2 * 65535 * c - d * s;
        assert!(0 <= err && err < 2 * s);
    }
}

#[test]
fn full_pipeline_four_points() {
    let cloud = vec![v(1, 0, 0), v(0, 1, 0), v(0, 0, 1), v(0, 0, 0)];
    let g = encode_cloud(&cloud).unwrap();
    let pts = decode_image(&g);
    assert_eq!(pts.len(), 4);
    assert_eq!((pts[0].x, pts[0].y, pts[0].z), (65535, -1, -1));
    assert_eq!((pts[1].x, pts[1].y, pts[1].z), (-1, 65535, -1));
    assert_eq!((pts[2].x, pts[2].y, pts[2].z), (-1, -1, 65535));
    assert_eq!((pts[3].x, pts[3].y, pts[3].z), (-1, -1, -1));
}
