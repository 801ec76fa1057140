use mvt_tiles::geometry::{
    bounds_of, filter_points, point_in_bbox, project_points, project_to_tile_space, BoundingBox,
    GeoPoint, TileAddress, MAX_ZOOM, TILE_EXTENT,
};

fn bbox_of(z: u32, x: u32, y: u32) -> BoundingBox {
    bounds_of(&TileAddress { z, x, y })
}

#[test]
fn world_tile_bounds() {
    // zoom 0: the full world minus the Mercator polar caps
    let b = bbox_of(0, 0, 0);
    assert_eq!(b.min_lon_e7, -1_800_000_000);
    assert_eq!(b.max_lon_e7, 1_800_000_000);
    assert_eq!(b.min_lat_e7, -850_511_288);
    assert_eq!(b.max_lat_e7, 850_511_288);
    // ~±85.0511 degrees
    assert!((b.max_lat_e7 as f64) / 1e7 > 85.05 && (b.max_lat_e7 as f64) / 1e7 < 85.06);
}

#[test]
fn zoom_one_northwest_tile_bounds() {
    let b = bbox_of(1, 0, 0);
    assert_eq!(
        (b.min_lon_e7, b.min_lat_e7, b.max_lon_e7, b.max_lat_e7),
        (-1_800_000_000, 0, 0, 850_511_288)
    );
}

#[test]
fn interpolated_latitude_row() {
    // a row between two table samples exercises the interpolation
    let b = bbox_of(8, 0, 0);
    assert_eq!(b.min_lat_e7, 849_236_869);
    assert_eq!(b.max_lat_e7, 850_511_288);
}

#[test]
fn adjacent_columns_share_their_seam() {
    let a = bbox_of(3, 2, 5);
    let b = bbox_of(3, 3, 5);
    assert_eq!(a.max_lon_e7, b.min_lon_e7);
    assert_eq!(a.min_lat_e7, b.min_lat_e7);
    assert_eq!(a.max_lat_e7, b.max_lat_e7);
}

#[test]
fn adjacent_rows_share_their_seam() {
    let a = bbox_of(3, 2, 5);
    let b = bbox_of(3, 2, 6);
    assert_eq!(a.min_lat_e7, b.max_lat_e7);
    assert_eq!(a.min_lon_e7, b.min_lon_e7);
}

#[test]
fn child_tile_contained_in_parent() {
    let parent = bbox_of(4, 5, 9);
    let child = bbox_of(5, 10, 18);
    assert!(parent.min_lon_e7 <= child.min_lon_e7);
    assert!(child.max_lon_e7 <= parent.max_lon_e7);
    assert!(parent.min_lat_e7 <= child.min_lat_e7);
    assert!(child.max_lat_e7 <= parent.max_lat_e7);
}

#[test]
fn boxes_are_well_formed_at_every_zoom() {
    for z in 0..=MAX_ZOOM {
        let last = (1u32 << z) - 1;
        for &(x, y) in &[(0u32, 0u32), (last, last), (last / 2, last / 3)] {
            let b = bbox_of(z, x, y);
            assert!(b.min_lon_e7 < b.max_lon_e7, "z={z} x={x} y={y}");
            assert!(b.min_lat_e7 < b.max_lat_e7, "z={z} x={x} y={y}");
        }
    }
}

#[test]
fn projection_matches_relative_position() {
    let b = bbox_of(2, 2, 1);
    assert_eq!(
        (b.min_lon_e7, b.min_lat_e7, b.max_lon_e7, b.max_lat_e7),
        (0, 0, 900_000_000, 665_132_604)
    );
    let p = GeoPoint { lon_e7: 100_000_000, lat_e7: 450_000_000 };
    let (px, py) = project_to_tile_space(&p, &b, TILE_EXTENT);
    assert_eq!((px, py), (455, 1324));
    // near the point's relative position inside the box: ~1/9 from the
    // west edge, about a third of the way down from the north edge
    assert!((px as f64 / 4096.0 - 1.0 / 9.0).abs() < 0.001);
    let rel_from_north = (665_132_604f64 - 450_000_000f64) / 665_132_604f64;
    assert!((py as f64 / 4096.0 - rel_from_north).abs() < 0.001);
}

#[test]
fn projection_clamps_outside_points() {
    let b = bbox_of(2, 2, 1);
    let west = GeoPoint { lon_e7: -500_000_000, lat_e7: 100_000_000 };
    let east = GeoPoint { lon_e7: 1_700_000_000, lat_e7: 100_000_000 };
    let (px_w, _) = project_to_tile_space(&west, &b, TILE_EXTENT);
    let (px_e, _) = project_to_tile_space(&east, &b, TILE_EXTENT);
    assert_eq!(px_w, 0);
    assert_eq!(px_e, 4095);
    // the east border itself still lands inside 0..extent
    let border = GeoPoint { lon_e7: 900_000_000, lat_e7: 0 };
    let (px_b, py_b) = project_to_tile_space(&border, &b, TILE_EXTENT);
    assert_eq!((px_b, py_b), (4095, 4095));
}

#[test]
fn filter_keeps_exactly_the_points_in_the_box() {
    let b = bbox_of(2, 2, 1);
    let inside = GeoPoint { lon_e7: 100_000_000, lat_e7: 450_000_000 };
    let outside = GeoPoint { lon_e7: 1_700_000_000, lat_e7: -800_000_000 };
    let west_edge = GeoPoint { lon_e7: 0, lat_e7: 450_000_000 };
    assert!(point_in_bbox(&inside, &b));
    assert!(!point_in_bbox(&outside, &b));
    assert!(point_in_bbox(&west_edge, &b));
    let pts = vec![outside, inside, west_edge, outside];
    let kept = filter_points(&pts, &b);
    assert_eq!(kept, vec![inside, west_edge]);
    let proj = project_points(&kept, &b, TILE_EXTENT);
    assert_eq!(proj, vec![(455, 1324), (0, 1324)]);
}

#[test]
fn empty_input_filters_to_nothing() {
    let b = bbox_of(0, 0, 0);
    let kept = filter_points(&Vec::new(), &b);
    assert!(kept.is_empty());
}
