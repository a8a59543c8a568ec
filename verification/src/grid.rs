//! Coordinate system of the board.
//!
//! The board is an irregular tessellation: rows of square ("Quad") tiles
//! with octagonal ("Octo") tiles nested between them, capped by one final
//! row that holds Quad tiles only.  A 2-D coordinate `(x, y)` addresses a
//! tile; a dense index in `[0, NUMBER_OF_TILES)` addresses the same tile in
//! a flat array.  On every row but the last, each unit of `x` is one tile;
//! on the last row only even `x` are tiles, and the packing halves the
//! stride there so that no index is wasted.

use vstd::prelude::*;

verus! {

use vstd::arithmetic::div_mod::lemma_fundamental_div_mod;
use vstd::arithmetic::div_mod::lemma_fundamental_div_mod_converse;
use vstd::arithmetic::div_mod::lemma_mod_bound;
use vstd::arithmetic::div_mod::lemma_div_multiples_vanish;

/// Number of octagon columns per side of the board.
pub const GRID_SIDE: usize = 4;

/// Tiles in one full row (quads and octagons interleaved).
pub const TILES_ON_SIDE: usize = GRID_SIDE * 2 + 1;

/// Alias of `TILES_ON_SIDE`: the row stride of the packed index.
pub const TILES_ON_ROW: usize = GRID_SIDE * 2 + 1;

/// Number of rows, the final quad-only row included.
pub const TILES_ON_COL: usize = GRID_SIDE + 1;

/// Total number of tiles on the board.
pub const NUMBER_OF_TILES: usize = (GRID_SIDE * 2 + 1) * GRID_SIDE + GRID_SIDE + 1;

/// A 2-D board coordinate.  Purely a lookup key; equality is structural.
#[derive(Clone, Copy, PartialEq, Eq, Structural, Debug)]
pub struct TileCoord {
    pub x: i32,
    pub y: i32,
}

/// The shape of a tile: four-neighbour square or eight-neighbour octagon.
#[derive(Clone, Copy, PartialEq, Eq, Structural, Debug)]
pub enum TileShape {
    Quad,
    Octo,
}

/// A coordinate denotes a tile when it lies inside the grid rectangle and,
/// on the last row, sits at an even `x` (the last row has no octagons).
pub open spec fn valid_xy(x: int, y: int) -> bool {
    &&& 0 <= x < TILES_ON_ROW as int
    &&& 0 <= y < TILES_ON_COL as int
    &&& (y == TILES_ON_COL as int - 1 ==> x % 2 == 0)
}

pub open spec fn valid_coord(c: TileCoord) -> bool {
    valid_xy(c.x as int, c.y as int)
}

/// The packed index of the tile at `(x, y)`: row-major, with the last row
/// compacted to one slot per two units of `x`.
pub open spec fn index_xy(x: int, y: int) -> int {
    if y < TILES_ON_COL as int - 1 {
        y * (TILES_ON_ROW as int) + x
    } else {
        y * (TILES_ON_ROW as int) + x / 2
    }
}

/// The `x` coordinate of the tile at packed index `i`; doubled back on the
/// last row to restore the unit spacing.
pub open spec fn coord_x(i: int) -> int {
    if i / (TILES_ON_ROW as int) == TILES_ON_COL as int - 1 {
        (i % (TILES_ON_ROW as int)) * 2
    } else {
        i % (TILES_ON_ROW as int)
    }
}

/// The `y` coordinate (row) of the tile at packed index `i`.
pub open spec fn coord_y(i: int) -> int {
    i / (TILES_ON_ROW as int)
}

/// Shape of the tile at `(x, y)`: even `x` is a Quad, odd `x` an Octo; the
/// last row holds Quad tiles only.
pub open spec fn shape_xy(x: int, y: int) -> TileShape {
    if y == TILES_ON_COL as int - 1 {
        TileShape::Quad
    } else if x % 2 == 0 {
        TileShape::Quad
    } else {
        TileShape::Octo
    }
}

/// Shape of the tile at packed index `i`.
pub open spec fn shape_of_index(i: int) -> TileShape {
    shape_xy(coord_x(i), coord_y(i))
}

/// Maps a coordinate to its packed tile index, or `None` when no tile
/// exists there (outside the grid, or an odd `x` on the last row).
pub fn get_index_from_coord(coord: TileCoord) -> (r: Option<usize>)
    ensures
        r is Some <==> valid_coord(coord),
        r matches Some(i) ==> i == index_xy(coord.x as int, coord.y as int)
            && i < NUMBER_OF_TILES,
{
    let width = TILES_ON_ROW as i32;
    let height = TILES_ON_COL as i32;
    if coord.x < 0 || coord.y < 0 || coord.x >= width || coord.y >= height {
        return None;
    }

    if coord.y < height - 1 || coord.x % 2 == 0 {
        Some(get_index_from_coord_unsafe(coord))
    } else {
        None
    }
}

/// The same mapping without validation; the caller guarantees the
/// coordinate denotes a tile.
pub fn get_index_from_coord_unsafe(coord: TileCoord) -> (r: usize)
    requires
        valid_coord(coord),
    ensures
        r == index_xy(coord.x as int, coord.y as int),
        r < NUMBER_OF_TILES,
{
    let width = TILES_ON_ROW as i32;
    let height = TILES_ON_COL as i32;
    assert(width == 9 && height == 5);
    if coord.y < height - 1 {
        (coord.y * width + coord.x) as usize
    } else {
        (coord.y * width + coord.x / 2) as usize
    }
}

/// Recovers the coordinate of the tile at a packed index; the inverse of
/// `get_index_from_coord` on valid tiles.
pub fn get_coord_from_index(index: usize) -> (r: TileCoord)
    requires
        index < NUMBER_OF_TILES,
    ensures
        r.x == coord_x(index as int),
        r.y == coord_y(index as int),
        valid_coord(r),
        index_xy(r.x as int, r.y as int) == index,
{
    proof {
        lemma_index_coord_round_trip(index as int);
        lemma_mod_bound(index as int, TILES_ON_ROW as int);
    }
    let x = (index % TILES_ON_ROW) as i32;
    let y = (index / TILES_ON_ROW) as i32;
    let mut result = TileCoord { x, y };
    if result.y == (TILES_ON_COL as i32) - 1 {
        result.x = result.x * 2;
    }
    result
}

/// Shape of the tile at a coordinate.
pub fn get_tile_shape(coord: TileCoord) -> (r: TileShape)
    requires
        valid_coord(coord),
    ensures
        r == shape_xy(coord.x as int, coord.y as int),
{
    if coord.x % 2 == 0 {
        TileShape::Quad
    } else {
        TileShape::Octo
    }
}

/// Shape of the tile at a packed index.
pub fn get_tile_shape_from_index(tile_index: usize) -> (r: TileShape)
    requires
        tile_index < NUMBER_OF_TILES,
    ensures
        r == shape_of_index(tile_index as int),
{
    if tile_index / TILES_ON_ROW == TILES_ON_COL - 1 {
        TileShape::Quad
    } else if tile_index % TILES_ON_ROW % 2 == 0 {
        TileShape::Quad
    } else {
        TileShape::Octo
    }
}

/// Round trip from index to coordinate and back: every packed index in
/// `[0, NUMBER_OF_TILES)` denotes a valid tile, and packing its coordinate
/// again yields the same index.
pub proof fn lemma_index_coord_round_trip(i: int)
    requires
        0 <= i < NUMBER_OF_TILES,
    ensures
        valid_xy(coord_x(i), coord_y(i)),
        index_xy(coord_x(i), coord_y(i)) == i,
{
    let w = TILES_ON_ROW as int;
    assert(w == 9);
    lemma_fundamental_div_mod(i, w);
    lemma_mod_bound(i, w);
    let q = i / w;
    let r = i % w;
    assert(0 <= q <= TILES_ON_COL as int - 1);
    if q == TILES_ON_COL as int - 1 {
        lemma_div_multiples_vanish(r, 2);
        assert((2 * r) / 2 == r);
        assert((r * 2) % 2 == 0) by {
            lemma_fundamental_div_mod_converse(r * 2, 2, r, 0);
        }
    }
}

/// Round trip from coordinate to index and back: every valid coordinate
/// packs to an index in range, and unpacking recovers the coordinate.
pub proof fn lemma_coord_index_round_trip(x: int, y: int)
    requires
        valid_xy(x, y),
    ensures
        0 <= index_xy(x, y) < NUMBER_OF_TILES,
        coord_x(index_xy(x, y)) == x,
        coord_y(index_xy(x, y)) == y,
{
    let w = TILES_ON_ROW as int;
    assert(w == 9);
    if y < TILES_ON_COL as int - 1 {
        let i = y * w + x;
        lemma_fundamental_div_mod_converse(i, w, y, x);
    } else {
        lemma_fundamental_div_mod(x, 2);
        lemma_mod_bound(x, 2);
        let h = x / 2;
        let i = y * w + h;
        lemma_fundamental_div_mod_converse(i, w, y, h);
    }
}

/// The shape read off an index agrees with the shape read off the
/// coordinate of the same tile.
pub proof fn lemma_shape_agrees(x: int, y: int)
    requires
        valid_xy(x, y),
    ensures
        shape_of_index(index_xy(x, y)) == shape_xy(x, y),
{
    lemma_coord_index_round_trip(x, y);
}

} // verus!
