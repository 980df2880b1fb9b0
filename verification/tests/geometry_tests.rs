use asset_codec::error::Error;
use asset_codec::geom::{compute_bounds, RawVertex};
use asset_codec::tess::Tessellator;

fn rv(x: i8, y: i8, z: i8) -> RawVertex {
    RawVertex { x, y, z }
}

#[test]
fn bounds_of_right_triangle() {
    let positions = vec![rv(0, 0, 0), rv(4, 0, 0), rv(0, 3, 0)];
    let b = compute_bounds(&positions).unwrap();
    assert_eq!((b.coord_min.x, b.coord_min.y, b.coord_min.z), (0, 0, 0));
    assert_eq!((b.coord_max.x, b.coord_max.y, b.coord_max.z), (4, 3, 0));
    assert_eq!(b.max_radius as f32, 5.0);
}

#[test]
fn bounds_with_negative_coordinates() {
    let positions = vec![rv(-3, 0, 0), rv(0, 4, 0)];
    let b = compute_bounds(&positions).unwrap();
    assert_eq!((b.coord_min.x, b.coord_min.y), (-3, 0));
    assert_eq!((b.coord_max.x, b.coord_max.y), (0, 4));
    // Farthest bounding-box corner is (-3, 4, 0): radius 5.
    assert_eq!(b.max_radius, 5);
}

#[test]
fn bounds_of_empty_mesh_is_an_error() {
    let positions: Vec<RawVertex> = Vec::new();
    assert!(matches!(compute_bounds(&positions), Err(Error::EmptyGeometry)));
}

#[test]
fn flat_tessellation_of_symmetric_quad() {
    let corners = vec![rv(10, 0, 0), rv(0, 10, 0), rv(-10, 0, 0), rv(0, -10, 0)];
    let mut tess = Tessellator::new();
    let samples = tess.tessellate(&corners, rv(0, 0, 0)).to_vec();
    assert_eq!(samples.len(), 4);
    assert_eq!(samples[0], rv(5, 0, 0));
    assert_eq!(samples[1], rv(0, 5, 0));
    assert_eq!(samples[2], rv(-5, 0, 0));
    assert_eq!(samples[3], rv(0, -5, 0));
}

#[test]
fn flat_tessellation_truncates_toward_zero() {
    // Corner sum is (-3, 3, 0): the half-middle truncates to (0, 0, 0),
    // and odd negative corners halve toward zero (-7/2 == -3).
    let corners = vec![rv(-7, 3, 0), rv(0, 0, 0), rv(4, 0, 0), rv(0, 0, 0)];
    let mut tess = Tessellator::new();
    let samples = tess.tessellate(&corners, rv(1, 1, 1)).to_vec();
    assert_eq!(samples[0], rv(-3, 1, 0));
    assert_eq!(samples[1], rv(0, 0, 0));
    assert_eq!(samples[2], rv(2, 0, 0));
    assert_eq!(samples[3], rv(0, 0, 0));
}
