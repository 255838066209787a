use material_volume::mapper::{map_position, CellIndex, Position, FRAC_UNIT};
use material_volume::material::{Material, Rgba};
use material_volume::VolumeError;

fn pos(whole_x: i32, frac_x: u32, whole_y: i32, frac_y: u32) -> Position {
    Position::new(whole_x, frac_x, whole_y, frac_y).unwrap()
}

#[test]
fn diamond_mapping_interior_points() {
    // The four representative points of the unit cell at (0, 0).
    assert_eq!(map_position(pos(0, 100_000, 0, 100_000)), CellIndex { x: 0, y: 0 });
    assert_eq!(map_position(pos(0, 900_000, 0, 100_000)), CellIndex { x: 1, y: 0 });
    assert_eq!(map_position(pos(0, 100_000, 0, 900_000)), CellIndex { x: 0, y: 1 });
    assert_eq!(map_position(pos(0, 900_000, 0, 900_000)), CellIndex { x: 1, y: 1 });
}

#[test]
fn diamond_mapping_triangle_centers() {
    // Bottom, top, left and right triangle interiors.
    assert_eq!(map_position(pos(0, 500_000, 0, 100_000)), CellIndex { x: 1, y: 0 });
    assert_eq!(map_position(pos(0, 500_000, 0, 900_000)), CellIndex { x: 0, y: 1 });
    assert_eq!(map_position(pos(0, 100_000, 0, 500_000)), CellIndex { x: 0, y: 0 });
    assert_eq!(map_position(pos(0, 900_000, 0, 500_000)), CellIndex { x: 1, y: 1 });
}

#[test]
fn diamond_mapping_center_boundary() {
    // Exactly at 0.5 on both axes: the diagonals cross; the cell is the
    // sub-grid origin.
    assert_eq!(map_position(pos(0, 500_000, 0, 500_000)), CellIndex { x: 0, y: 0 });
}

#[test]
fn diamond_mapping_other_unit_cell() {
    // (2.6, 3.2) lies in the bottom triangle of unit cell (2, 3).
    assert_eq!(map_position(pos(2, 600_000, 3, 200_000)), CellIndex { x: 5, y: 6 });
}

#[test]
fn diamond_mapping_negative_positions() {
    // (-0.5, -0.5) is the center of unit cell (-1, -1).
    assert_eq!(map_position(pos(-1, 500_000, -1, 500_000)), CellIndex { x: -2, y: -2 });
}

#[test]
fn diamond_mapping_deterministic() {
    let p = pos(4, 123_456, 7, 654_321);
    assert_eq!(map_position(p), map_position(p));
}

#[test]
fn position_rejects_whole_cell_fraction() {
    assert!(Position::new(0, FRAC_UNIT, 0, 0).is_none());
    assert!(Position::new(0, 0, 0, FRAC_UNIT + 1).is_none());
    assert!(Position::new(0, FRAC_UNIT - 1, 0, FRAC_UNIT - 1).is_some());
}

#[test]
fn material_with_zero_ceiling_is_rejected() {
    let c = Rgba { r: 1, g: 2, b: 3, a: 4 };
    let r = Material::new(c, 0, 0, 0, 0);
    assert_eq!(r.unwrap_err(), VolumeError::InvariantViolation);
}

#[test]
fn material_construction_keeps_fields() {
    let c = Rgba { r: 10, g: 20, b: 30, a: 255 };
    let m = Material::new(c, 7, 9, 0b0000_0101, -3).unwrap();
    assert_eq!(m.base_color(), c);
    assert_eq!(m.integrity(), 7);
    assert_eq!(m.max_integrity(), 9);
    assert_eq!(m.collision_layers(), 0b0000_0101);
    assert_eq!(m.temperature(), -3);
}

#[test]
fn material_recolor_keeps_other_fields() {
    let c = Rgba { r: 10, g: 20, b: 30, a: 255 };
    let c2 = Rgba { r: 1, g: 1, b: 1, a: 128 };
    let m = Material::new(c, 7, 9, 3, -3).unwrap();
    let m2 = m.with_base_color(c2);
    assert_eq!(m2.base_color(), c2);
    assert_eq!(m2.integrity(), 7);
    assert_eq!(m2.max_integrity(), 9);
    assert_eq!(m2.collision_layers(), 3);
    assert_eq!(m2.temperature(), -3);
}
