use dungeon_core::room_validator::{
    calculate_shape_metrics, is_contiguous, validate_room_shape, RoomShapeError, ShapeMetrics,
};
use dungeon_core::tiles::TilePos;
use dungeon_core::world::Room;

#[test]
fn test_is_contiguous() {
    let tiles = vec![
        TilePos::new(0, 0),
        TilePos::new(1, 0),
        TilePos::new(0, 1),
        TilePos::new(1, 1),
    ];
    assert!(is_contiguous(&tiles));

    let tiles = vec![TilePos::new(0, 0), TilePos::new(5, 5)];
    assert!(!is_contiguous(&tiles));
}

#[test]
fn empty_set_is_not_contiguous() {
    assert!(!is_contiguous(&vec![]));
}

#[test]
fn l_shape_is_contiguous_but_diagonal_is_not() {
    let l = vec![
        TilePos::new(3, 3),
        TilePos::new(3, 4),
        TilePos::new(3, 5),
        TilePos::new(4, 5),
    ];
    assert!(is_contiguous(&l));
    let diagonal = vec![TilePos::new(0, 0), TilePos::new(1, 1)];
    assert!(!is_contiguous(&diagonal));
}

#[test]
fn validate_room_shape_reports_each_error() {
    let square = vec![
        TilePos::new(0, 0),
        TilePos::new(1, 0),
        TilePos::new(0, 1),
        TilePos::new(1, 1),
    ];
    assert_eq!(validate_room_shape(&square, 4, 9), Ok(()));
    assert_eq!(
        validate_room_shape(&square, 5, 9),
        Err(RoomShapeError::TooSmall { size: 4, min_tiles: 5 })
    );
    assert_eq!(
        validate_room_shape(&square, 1, 3),
        Err(RoomShapeError::TooLarge { size: 4, max_tiles: 3 })
    );
    let split = vec![TilePos::new(0, 0), TilePos::new(2, 0)];
    assert_eq!(
        validate_room_shape(&split, 1, 9),
        Err(RoomShapeError::NotContiguous)
    );
}

#[test]
fn test_room_center() {
    let tiles = vec![TilePos::new(0, 0), TilePos::new(2, 0), TilePos::new(1, 1)];
    let room = Room::new(0, "test".to_string(), tiles);
    let center = room.get_center();
    assert_eq!(center.x, 1);
    assert_eq!(center.y, 0);
}

#[test]
fn room_center_rounds_toward_zero_for_negative_sums() {
    let tiles = vec![TilePos::new(-1, -3), TilePos::new(-2, 0)];
    let room = Room::new(7, "lair".to_string(), tiles);
    let center = room.get_center();
    assert_eq!(center.x, -1);
    assert_eq!(center.y, -1);
    assert_eq!(room.size(), 2);
}

fn aspect_ratio(m: &ShapeMetrics) -> f32 {
    let (w, h) = (m.width as f32, m.height as f32);
    if w > h {
        w / h
    } else {
        h / w
    }
}

fn compactness(m: &ShapeMetrics) -> f32 {
    m.tile_count as f32 / (m.width as f32 * m.height as f32)
}

#[test]
fn test_shape_metrics() {
    // Test a 4x1 corridor (thin corridor)
    let tiles: Vec<TilePos> = (0..5).map(|x| TilePos::new(x, 0)).collect();
    let metrics = calculate_shape_metrics(&tiles);
    assert!(metrics.is_thin_corridor);
    assert!(aspect_ratio(&metrics) > 4.0);

    // Test a 3x3 square (good shape)
    let mut tiles = Vec::new();
    for x in 0..3 {
        for y in 0..3 {
            tiles.push(TilePos::new(x, y));
        }
    }
    let metrics = calculate_shape_metrics(&tiles);
    assert!(!metrics.is_thin_corridor);
    assert_eq!(compactness(&metrics), 1.0); // Perfect square
}

#[test]
fn shape_metrics_of_scattered_and_empty_tiles() {
    let tiles = vec![TilePos::new(1, 1), TilePos::new(4, 2)];
    let m = calculate_shape_metrics(&tiles);
    assert_eq!((m.width, m.height, m.tile_count), (4, 2, 2));
    assert!(m.is_fragmented);
    assert!(!m.is_thin_corridor);

    let m = calculate_shape_metrics(&Vec::new());
    assert_eq!((m.width, m.height, m.tile_count), (1, 1, 0));
    assert!(m.is_fragmented);
    assert_eq!(aspect_ratio(&m), 1.0);
    assert_eq!(compactness(&m), 0.0);
}
