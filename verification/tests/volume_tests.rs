use material_volume::mapper::{CellIndex, Position};
use material_volume::material::{Material, Rgba};
use material_volume::tracker::StrategyKind;
use material_volume::volume::{MaterialVolume, SyncRequest};

fn mat(r: u8, g: u8, b: u8, a: u8) -> Material {
    Material::new(Rgba { r, g, b, a }, 5, 10, 1, 0).unwrap()
}

fn ix(x: i64, y: i64) -> CellIndex {
    CellIndex { x, y }
}

#[test]
fn bounds_safety_get_and_set() {
    // Logical 2x2 grid: capacity 4x4 cells.
    let mut v = MaterialVolume::new(2, 2);
    let m = mat(1, 2, 3, 255);
    assert_eq!(v.get(ix(-1, 0)), None);
    assert_eq!(v.get(ix(0, -1)), None);
    assert_eq!(v.get(ix(4, 0)), None);
    assert_eq!(v.get(ix(0, 4)), None);
    assert_eq!(v.set(ix(-1, 0), Some(m)), None);
    assert_eq!(v.set(ix(4, 0), Some(m)), None);
    assert_eq!(v.set(ix(0, 4), Some(m)), None);
    // No cell was mutated by the failing writes.
    for x in 0..4 {
        for y in 0..4 {
            assert_eq!(v.get(ix(x, y)), None);
        }
    }
}

#[test]
fn set_get_round_trip() {
    let mut v = MaterialVolume::new(2, 2);
    let m = mat(9, 8, 7, 255);
    assert_eq!(v.set(ix(1, 2), Some(m)), Some(()));
    assert_eq!(v.get(ix(1, 2)), Some(m));
    // Other cells are untouched.
    assert_eq!(v.get(ix(2, 1)), None);
    // Clearing the cell through a vacuum write.
    assert_eq!(v.set(ix(1, 2), None), Some(()));
    assert_eq!(v.get(ix(1, 2)), None);
}

#[test]
fn pixel_accessors_use_the_diamond_mapping() {
    let mut v = MaterialVolume::new(2, 2);
    let m = mat(5, 5, 5, 255);
    // (0.9, 0.1) maps to cell (1, 0).
    let p = Position::new(0, 900_000, 0, 100_000).unwrap();
    assert_eq!(v.set_pixel_at(p, Some(m)), Some(()));
    assert_eq!(v.get(ix(1, 0)), Some(m));
    assert_eq!(v.get_pixel_at(p), Some(m));
    // A position left of the grid maps out of bounds: a harmless no-op.
    let q = Position::new(-1, 100_000, 0, 100_000).unwrap();
    assert_eq!(v.set_pixel_at(q, Some(m)), None);
    assert_eq!(v.get_pixel_at(q), None);
}

#[test]
fn full_strategy_pushes_everything_once() {
    // 4x4 logical: 64 cells, at most 128, so the Full strategy is active.
    let mut v = MaterialVolume::new(4, 4);
    let m = mat(10, 20, 30, 255);
    assert_eq!(v.set(ix(1, 1), Some(m)), Some(()));
    match v.synchronize() {
        SyncRequest::Everything { width, height, pixels } => {
            assert_eq!(width, 8);
            assert_eq!(height, 8);
            assert_eq!(pixels.len(), 8 * 8 * 4);
            // Cell (1, 1) sits at flat offset 1 + 1 * 8 = 9.
            assert_eq!(&pixels[36..40], &[10, 20, 30, 255]);
            // An untouched cell is fully transparent.
            assert_eq!(&pixels[0..4], &[0, 0, 0, 0]);
        },
        _ => panic!("a dirty Full tracker must push the whole buffer"),
    }
    // Nothing changed since: the second synchronization pushes nothing.
    assert!(matches!(v.synchronize(), SyncRequest::Nothing));
}

#[test]
fn square_strategy_pushes_the_bounding_box() {
    // 6x6 logical: 144 cells, past 128, so the Square strategy is active.
    let mut v = MaterialVolume::new(6, 6);
    let m1 = mat(1, 0, 0, 255);
    let m2 = mat(2, 0, 0, 255);
    let m3 = mat(3, 0, 0, 255);
    assert_eq!(v.set(ix(2, 2), Some(m1)), Some(()));
    assert_eq!(v.set(ix(5, 7), Some(m2)), Some(()));
    assert_eq!(v.set(ix(1, 9), Some(m3)), Some(()));
    match v.synchronize() {
        SyncRequest::Region { x, y, width, height, pixels } => {
            assert_eq!((x, y), (1, 2));
            assert_eq!((width, height), (5, 8));
            assert_eq!(pixels.len(), (5 * 8 * 4) as usize);
            // (2, 2) lies at (1, 0) of the extract; rows are 5 cells wide.
            assert_eq!(&pixels[4..8], &[1, 0, 0, 255]);
            // (5, 7) lies at (4, 5): offset 4 * (5 * 5 + 4) = 116.
            assert_eq!(&pixels[116..120], &[2, 0, 0, 255]);
            // (1, 9) lies at (0, 7): offset 4 * (7 * 5) = 140.
            assert_eq!(&pixels[140..144], &[3, 0, 0, 255]);
            // An untouched corner of the box is transparent.
            assert_eq!(&pixels[0..4], &[0, 0, 0, 0]);
        },
        _ => panic!("a Square tracker with a box must push that sub-rectangle"),
    }
    assert!(matches!(v.synchronize(), SyncRequest::Nothing));
}

#[test]
fn growth_past_threshold_switches_and_discards() {
    // 100 cells: Full strategy.
    let mut v = MaterialVolume::new(5, 5);
    let m = mat(4, 4, 4, 255);
    assert_eq!(v.set(ix(0, 0), Some(m)), Some(()));
    match v.synchronize() {
        SyncRequest::Everything { .. } => {},
        _ => panic!("below the threshold the strategy must be Full"),
    }
    // Make it dirty again, then grow to 200 cells: the tracker switches to
    // Square and the pending dirty flag is discarded.
    assert_eq!(v.set(ix(0, 0), Some(m)), Some(()));
    v.resize(5, 10);
    assert_eq!(v.capacity(), (10, 20));
    assert_eq!(v.size(), (5, 10));
    assert!(matches!(v.synchronize(), SyncRequest::Nothing));
    // The new strategy tracks a bounding box.
    assert_eq!(v.set(ix(3, 3), Some(m)), Some(()));
    match v.synchronize() {
        SyncRequest::Region { x, y, width, height, pixels } => {
            assert_eq!((x, y, width, height), (3, 3, 1, 1));
            assert_eq!(&pixels[..], &[4, 4, 4, 255]);
        },
        _ => panic!("past the threshold the strategy must be Square"),
    }
}

#[test]
fn resize_preserves_cell_content() {
    let mut v = MaterialVolume::new(5, 5);
    let m = mat(7, 7, 7, 255);
    assert_eq!(v.set(ix(3, 4), Some(m)), Some(()));
    v.resize(5, 10);
    assert_eq!(v.get(ix(3, 4)), Some(m));
    // Newly allocated cells are vacuum.
    assert_eq!(v.get(ix(3, 15)), None);
    // Capacity never shrinks.
    v.resize(1, 1);
    assert_eq!(v.capacity(), (10, 20));
    assert_eq!(v.get(ix(3, 4)), Some(m));
}

#[test]
fn from_image_applies_the_template_where_opaque() {
    // A 4x2 source image with one opaque pixel at cell (2, 1).
    let mut bytes = vec![0u8; 4 * 4 * 2];
    let k = (2 + 1 * 4) * 4;
    bytes[k..k + 4].copy_from_slice(&[10, 20, 30, 255]);
    let template = mat(0, 0, 0, 0);
    let v = MaterialVolume::from_image(4, 2, &bytes, template);
    assert_eq!(v.capacity(), (4, 2));
    assert_eq!(v.size(), (2, 1));
    let got = v.get(ix(2, 1)).unwrap();
    assert_eq!(got.base_color(), Rgba { r: 10, g: 20, b: 30, a: 255 });
    assert_eq!(got.integrity(), template.integrity());
    assert_eq!(got.max_integrity(), template.max_integrity());
    assert_eq!(v.get(ix(0, 0)), None);
    assert_eq!(v.get(ix(3, 1)), None);
}

#[test]
fn index_1d_is_row_major_over_capacity() {
    let v = MaterialVolume::new(4, 4);
    assert_eq!(v.index_1d(ix(3, 2)), 3 + 2 * 8);
    assert_eq!(v.index_1d(ix(0, 0)), 0);
    assert_eq!(v.index_1d(ix(7, 7)), 63);
}

#[test]
fn point_set_strategy_is_inert() {
    let mut v = MaterialVolume::new(2, 2);
    v.set_strategy(StrategyKind::PointSet);
    let m = mat(6, 6, 6, 255);
    assert_eq!(v.set(ix(1, 1), Some(m)), Some(()));
    // The cell is stored, but synchronization does not consume this
    // strategy: nothing is pushed, and the tracker is cleared.
    assert_eq!(v.get(ix(1, 1)), Some(m));
    assert!(matches!(v.synchronize(), SyncRequest::Nothing));
}

#[test]
fn strategy_switch_discards_dirty_state() {
    let mut v = MaterialVolume::new(2, 2);
    let m = mat(8, 8, 8, 255);
    assert_eq!(v.set(ix(0, 0), Some(m)), Some(()));
    v.set_strategy(StrategyKind::Square);
    assert!(matches!(v.synchronize(), SyncRequest::Nothing));
}
