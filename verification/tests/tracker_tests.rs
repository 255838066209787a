use material_volume::mapper::{CellIndex, Position};
use material_volume::tracker::{DirtyRect, StrategyKind, UpdateHandler};
use material_volume::collider::PolygonCollider;

fn ix(x: i64, y: i64) -> CellIndex {
    CellIndex { x, y }
}

#[test]
fn strategy_threshold_at_128_cells() {
    assert!(matches!(UpdateHandler::from_elements(128), UpdateHandler::Full { dirty: false }));
    assert!(matches!(UpdateHandler::from_elements(129), UpdateHandler::Square { region: None }));
    assert!(matches!(UpdateHandler::from_elements(0), UpdateHandler::Full { dirty: false }));
}

#[test]
fn full_register_is_idempotent() {
    let mut t = UpdateHandler::from_elements(10);
    t.register(ix(1, 1));
    t.register(ix(3, 3));
    assert!(matches!(t, UpdateHandler::Full { dirty: true }));
    t.clear();
    assert!(matches!(t, UpdateHandler::Full { dirty: false }));
}

#[test]
fn square_register_merges_min_max() {
    let mut t = UpdateHandler::from_elements(200);
    t.register(ix(2, 2));
    t.register(ix(5, 7));
    t.register(ix(1, 9));
    match t {
        UpdateHandler::Square { region } => {
            assert_eq!(
                region,
                Some(DirtyRect { lower: ix(1, 2), upper: ix(5, 9) })
            );
        },
        _ => panic!("past the threshold the strategy must be Square"),
    }
}

#[test]
fn square_register_inside_box_keeps_it() {
    let mut t = UpdateHandler::from_elements(200);
    t.register(ix(1, 1));
    t.register(ix(6, 6));
    t.register(ix(3, 3));
    match t {
        UpdateHandler::Square { region } => {
            assert_eq!(
                region,
                Some(DirtyRect { lower: ix(1, 1), upper: ix(6, 6) })
            );
        },
        _ => panic!("past the threshold the strategy must be Square"),
    }
}

#[test]
fn square_clear_empties_the_box() {
    let mut t = UpdateHandler::from_elements(200);
    t.register(ix(4, 4));
    t.clear();
    assert!(matches!(t, UpdateHandler::Square { region: None }));
}

#[test]
fn update_from_elements_replaces_only_on_crossing() {
    let mut t = UpdateHandler::from_elements(100);
    t.register(ix(1, 1));
    // Same side of the threshold: the dirty state is kept.
    t.update_from_elements(120);
    assert!(matches!(t, UpdateHandler::Full { dirty: true }));
    // Crossing: the tracker is replaced, pristine.
    t.update_from_elements(200);
    assert!(matches!(t, UpdateHandler::Square { region: None }));
    // Crossing back down.
    t.register(ix(2, 2));
    t.update_from_elements(50);
    assert!(matches!(t, UpdateHandler::Full { dirty: false }));
}

#[test]
fn point_set_registers_without_duplicates() {
    let mut t = UpdateHandler::fresh_of(StrategyKind::PointSet);
    t.register(ix(1, 2));
    t.register(ix(1, 2));
    t.register(ix(3, 4));
    match t {
        UpdateHandler::PointSet { points } => {
            assert_eq!(points.len(), 2);
            assert!(points.contains(&ix(1, 2)));
            assert!(points.contains(&ix(3, 4)));
        },
        _ => panic!("an explicitly chosen PointSet strategy must stay active"),
    }
}

#[test]
fn collider_derives_a_closed_loop() {
    let points = vec![ix(0, 0), ix(4, 0), ix(4, 4)];
    let col = PolygonCollider::new(points, None).unwrap();
    assert_eq!(col.edges, vec![(0, 1), (1, 2), (2, 0)]);
}

#[test]
fn collider_accepts_valid_explicit_edges() {
    let points = vec![ix(0, 0), ix(4, 0), ix(4, 4)];
    let col = PolygonCollider::new(points, Some(vec![(0, 2), (2, 1)])).unwrap();
    assert_eq!(col.edges, vec![(0, 2), (2, 1)]);
}

#[test]
fn collider_rejects_dangling_edges() {
    let points = vec![ix(0, 0), ix(4, 0)];
    assert!(PolygonCollider::new(points, Some(vec![(0, 2)])).is_none());
}

#[test]
fn collider_points_at_half_scale() {
    let points = vec![ix(3, -1), ix(4, 0)];
    let col = PolygonCollider::new(points, None).unwrap();
    let halves = col.points_as_half(ix(0, 0));
    // 3 / 2 = 1.5 and -1 / 2 = -0.5, exactly.
    assert_eq!(halves[0], Position::new(1, 500_000, -1, 500_000).unwrap());
    assert_eq!(halves[1], Position::new(2, 0, 0, 0).unwrap());
    // With an offset of (1, 1) applied before halving.
    let shifted = col.points_as_half(ix(1, 1));
    assert_eq!(shifted[0], Position::new(2, 0, 0, 0).unwrap());
}

#[test]
fn collider_edge_segments_follow_the_edges() {
    let points = vec![ix(0, 0), ix(2, 0), ix(2, 2)];
    let col = PolygonCollider::new(points, None).unwrap();
    let segs = col.edge_segments(ix(0, 0));
    assert_eq!(segs.len(), 3);
    assert_eq!(segs[0].0, Position::new(0, 0, 0, 0).unwrap());
    assert_eq!(segs[0].1, Position::new(1, 0, 0, 0).unwrap());
    assert_eq!(segs[2].0, Position::new(1, 0, 1, 0).unwrap());
    assert_eq!(segs[2].1, Position::new(0, 0, 0, 0).unwrap());
}
