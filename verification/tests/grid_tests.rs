use octochess::grid::GRID_SIDE;
use octochess::grid::NUMBER_OF_TILES;
use octochess::grid::TILES_ON_COL;
use octochess::grid::TILES_ON_ROW;
use octochess::grid::TILES_ON_SIDE;
use octochess::grid::TileCoord;
use octochess::grid::TileShape;
use octochess::grid::get_coord_from_index;
use octochess::grid::get_index_from_coord;
use octochess::grid::get_index_from_coord_unsafe;
use octochess::grid::get_tile_shape;
use octochess::grid::get_tile_shape_from_index;

#[test]
fn board_constants() {
    assert_eq!(GRID_SIDE, 4);
    assert_eq!(TILES_ON_SIDE, 9);
    assert_eq!(TILES_ON_ROW, 9);
    assert_eq!(TILES_ON_COL, 5);
    assert_eq!(NUMBER_OF_TILES, 41);
}

#[test]
fn index_from_coord_fixtures() {
    assert_eq!(get_index_from_coord(TileCoord { x: 0, y: 0 }), Some(0));
    assert_eq!(get_index_from_coord(TileCoord { x: 3, y: 0 }), Some(3));
    assert_eq!(get_index_from_coord(TileCoord { x: 4, y: 1 }), Some(13));
    assert_eq!(get_index_from_coord(TileCoord { x: 3, y: 3 }), Some(30));
    assert_eq!(get_index_from_coord(TileCoord { x: 8, y: 3 }), Some(35));
    // the last row packs one index per two units of x
    assert_eq!(get_index_from_coord(TileCoord { x: 0, y: 4 }), Some(36));
    assert_eq!(get_index_from_coord(TileCoord { x: 4, y: 4 }), Some(38));
    assert_eq!(get_index_from_coord(TileCoord { x: 8, y: 4 }), Some(40));
}

#[test]
fn index_from_coord_rejects_outside() {
    assert_eq!(get_index_from_coord(TileCoord { x: -1, y: 0 }), None);
    assert_eq!(get_index_from_coord(TileCoord { x: 0, y: -1 }), None);
    assert_eq!(get_index_from_coord(TileCoord { x: 9, y: 0 }), None);
    assert_eq!(get_index_from_coord(TileCoord { x: 0, y: 5 }), None);
}

#[test]
fn index_from_coord_rejects_last_row_octo_slots() {
    // no octagon tiles exist on the capping row
    assert_eq!(get_index_from_coord(TileCoord { x: 1, y: 4 }), None);
    assert_eq!(get_index_from_coord(TileCoord { x: 7, y: 4 }), None);
}

#[test]
fn coord_from_index_fixtures() {
    assert_eq!(get_coord_from_index(0), TileCoord { x: 0, y: 0 });
    assert_eq!(get_coord_from_index(17), TileCoord { x: 8, y: 1 });
    assert_eq!(get_coord_from_index(30), TileCoord { x: 3, y: 3 });
    // the recovered x is doubled back on the last row
    assert_eq!(get_coord_from_index(37), TileCoord { x: 2, y: 4 });
    assert_eq!(get_coord_from_index(40), TileCoord { x: 8, y: 4 });
}

#[test]
fn coordinate_round_trip_all_tiles() {
    for i in 0..NUMBER_OF_TILES {
        let coord = get_coord_from_index(i);
        assert_eq!(get_index_from_coord(coord), Some(i));
        assert_eq!(get_index_from_coord_unsafe(coord), i);
    }
}

#[test]
fn shape_fixtures() {
    assert_eq!(get_tile_shape(TileCoord { x: 2, y: 1 }), TileShape::Quad);
    assert_eq!(get_tile_shape(TileCoord { x: 3, y: 2 }), TileShape::Octo);
    assert_eq!(get_tile_shape_from_index(0), TileShape::Quad);
    assert_eq!(get_tile_shape_from_index(10), TileShape::Octo);
    assert_eq!(get_tile_shape_from_index(22), TileShape::Quad);
}

#[test]
fn last_row_is_quad_only() {
    for i in 36..NUMBER_OF_TILES {
        assert_eq!(get_tile_shape_from_index(i), TileShape::Quad);
    }
}

#[test]
fn shape_deterministic_and_paths_agree() {
    for i in 0..NUMBER_OF_TILES {
        let first = get_tile_shape_from_index(i);
        let again = get_tile_shape_from_index(i);
        assert_eq!(first, again);
        let by_coord = get_tile_shape(get_coord_from_index(i));
        assert_eq!(first, by_coord);
    }
}
