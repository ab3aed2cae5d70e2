use panarchy::spatial::{TileGrid, TilePos};

#[test]
fn test_tile_grid() {
    let grid = TileGrid::new(10, 5);

    assert_eq!(grid.width(), 10);
    assert_eq!(grid.height(), 5);
    assert_eq!(grid.tile_count(), 50);
}

#[test]
fn test_pos_id_conversion() {
    let grid = TileGrid::new(10, 5);

    let pos = TilePos { x: 3, y: 2 };
    let id = grid.pos_to_id(pos).unwrap();
    assert_eq!(id, 23); // 2 * 10 + 3

    let pos2 = grid.id_to_pos(id).unwrap();
    assert_eq!(pos, pos2);
}

#[test]
fn test_neighbors() {
    let grid = TileGrid::new(10, 5);

    // Corner tile
    let pos = TilePos { x: 0, y: 0 };
    let neighbors = grid.neighbors(pos);
    assert_eq!(neighbors.len(), 2); // Only south and east

    // Middle tile
    let pos = TilePos { x: 5, y: 2 };
    let neighbors = grid.neighbors(pos);
    assert_eq!(neighbors.len(), 4); // All directions
}

#[test]
fn test_distance() {
    let grid = TileGrid::new(10, 5);

    let a = TilePos { x: 0, y: 0 };
    let b = TilePos { x: 3, y: 4 };

    assert_eq!(grid.distance(a, b), 7); // 3 + 4
}

#[test]
fn out_of_grid_positions_have_no_id() {
    let grid = TileGrid::new(10, 5);
    assert_eq!(grid.pos_to_id(TilePos { x: 10, y: 0 }), None);
    assert_eq!(grid.pos_to_id(TilePos { x: 0, y: 5 }), None);
    assert_eq!(grid.id_to_pos(50), None);
}
