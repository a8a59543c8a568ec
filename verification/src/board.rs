//! Board state: tile occupancy, per-side pawn bookkeeping, and moves.
//!
//! `BoardState` is a plain value: applying a move produces a new state,
//! which keeps speculative exploration in the search free of aliasing.
//! The central invariant (`wf`) ties the three views of the same fact
//! together: a pawn sits on a tile, its owner's `PawnArray` lists that
//! tile at the pawn's `table_index`, and no other slot mentions it.

use vstd::prelude::*;
use crate::game::MAX_PAWN_NUMBER;
use crate::game::PlayerSide;
use crate::grid::NUMBER_OF_TILES;
use crate::grid::TileCoord;
use crate::grid::TileShape;
use crate::grid::coord_x;
use crate::grid::coord_y;
use crate::grid::get_coord_from_index;
use crate::grid::get_index_from_coord;
use crate::grid::get_tile_shape_from_index;
use crate::grid::index_xy;
use crate::grid::shape_of_index;
use crate::grid::valid_coord;
use crate::grid::valid_xy;
use crate::pawn::Pawn;
use crate::pawn::PawnArray;

verus! {

broadcast use vstd::array::group_array_axioms, vstd::seq_lib::group_seq_lib_default,
    vstd::prelude::Seq::lemma_filter_push;

/// Why `add_pawn` rejected a placement.
#[derive(Clone, Copy, PartialEq, Eq, Structural, Debug)]
pub enum AddPawnError {
    /// The coordinate denotes no tile.
    InvalidCoordinate,
    /// The tile already holds a pawn.
    OccupiedTile,
}

/// The whole game position: one optional pawn per tile, whose turn it
/// is, and each side's dense list of pawn locations.
#[derive(Clone, Copy, Debug)]
#[verifier::ext_equal]
pub struct BoardState {
    pub tiles: [Option<Pawn>; NUMBER_OF_TILES],
    pub current_player: PlayerSide,
    pub top_pawns: PawnArray,
    pub bottom_pawns: PawnArray,
}

/// The pawn list of `side`.
pub open spec fn side_pawns(b: BoardState, side: PlayerSide) -> PawnArray {
    match side {
        PlayerSide::Top => b.top_pawns,
        PlayerSide::Bottom => b.bottom_pawns,
    }
}

/// The board with `side`'s pawn list replaced.
pub open spec fn with_side(b: BoardState, side: PlayerSide, pa: PawnArray) -> BoardState {
    match side {
        PlayerSide::Top => BoardState { top_pawns: pa, ..b },
        PlayerSide::Bottom => BoardState { bottom_pawns: pa, ..b },
    }
}

/// Which side occupies tile `i`, if any.
pub open spec fn player_at(b: BoardState, i: int) -> Option<PlayerSide> {
    match b.tiles@[i] {
        Some(p) => Some(p.player),
        None => None,
    }
}

/// Every live entry of `side`'s pawn list points at a tile holding a pawn
/// of that side whose `table_index` is the entry's slot.
pub open spec fn wf_side(b: BoardState, side: PlayerSide) -> bool {
    let pa = side_pawns(b, side);
    &&& pa.count <= MAX_PAWN_NUMBER
    &&& forall|k: int|
        0 <= k < pa.count ==> (#[trigger] pa.tile_indexes@[k]) < NUMBER_OF_TILES
            && b.tiles@[pa.tile_indexes@[k] as int] == Some(
            Pawn { player: side, table_index: k as usize },
        )
}

/// Every pawn on a tile is registered in its owner's pawn list, at the
/// slot its `table_index` names.
pub open spec fn wf_tiles(b: BoardState) -> bool {
    forall|i: int|
        0 <= i < NUMBER_OF_TILES ==> ((#[trigger] b.tiles@[i]) matches Some(p) ==> {
            let pa = side_pawns(b, p.player);
            &&& p.table_index < pa.count
            &&& pa.tile_indexes@[p.table_index as int] == i as usize
        })
}

/// The board invariant: both pawn lists and the tile array agree.
/// It implies that each side's live entries are pairwise distinct and
/// enumerate exactly the tiles occupied by that side.
pub open spec fn wf(b: BoardState) -> bool {
    &&& wf_side(b, PlayerSide::Top)
    &&& wf_side(b, PlayerSide::Bottom)
    &&& wf_tiles(b)
}

/// Two live slots of one side never name the same tile.
pub proof fn lemma_entries_distinct(b: BoardState, side: PlayerSide, k1: int, k2: int)
    requires
        wf(b),
        0 <= k1 < side_pawns(b, side).count,
        0 <= k2 < side_pawns(b, side).count,
        k1 != k2,
    ensures
        side_pawns(b, side).tile_indexes@[k1] != side_pawns(b, side).tile_indexes@[k2],
{
}

impl BoardState {
    /// An empty board: no pawns anywhere, `Bottom` to move.
    pub fn new() -> (b: BoardState)
        ensures
            wf(b),
            b.current_player == PlayerSide::Bottom,
            b.top_pawns.count == 0,
            b.bottom_pawns.count == 0,
            forall|i: int| 0 <= i < NUMBER_OF_TILES ==> b.tiles@[i] is None,
    {
        BoardState {
            tiles: [None; NUMBER_OF_TILES],
            current_player: PlayerSide::Bottom,
            top_pawns: PawnArray::new(),
            bottom_pawns: PawnArray::new(),
        }
    }

    /// The pawn list of `side`.
    pub fn get_side_pawns(&self, side: PlayerSide) -> (pa: PawnArray)
        ensures
            pa == side_pawns(*self, side),
    {
        match side {
            PlayerSide::Top => self.top_pawns,
            PlayerSide::Bottom => self.bottom_pawns,
        }
    }

    /// Replaces the pawn list of `side`.
    fn set_side_pawns(&mut self, side: PlayerSide, pa: PawnArray)
        ensures
            *final(self) == with_side(*old(self), side, pa),
    {
        match side {
            PlayerSide::Top => self.top_pawns = pa,
            PlayerSide::Bottom => self.bottom_pawns = pa,
        }
    }

    /// Places a new pawn for `player` on the tile at `coord`, appending
    /// it to that side's pawn list.  Rejects coordinates that denote no
    /// tile and tiles that are already occupied, leaving the board
    /// untouched.
    pub fn add_pawn(&mut self, coord: TileCoord, player: PlayerSide) -> (r: Result<
        (),
        AddPawnError,
    >)
        requires
            wf(*old(self)),
            side_pawns(*old(self), player).count < MAX_PAWN_NUMBER,
        ensures
            wf(*final(self)),
            !valid_coord(coord) ==> r == Err::<(), AddPawnError>(AddPawnError::InvalidCoordinate)
                && *final(self) == *old(self),
            valid_coord(coord) && player_at(
                *old(self),
                index_xy(coord.x as int, coord.y as int),
            ) is Some ==> r == Err::<(), AddPawnError>(AddPawnError::OccupiedTile) && *final(self)
                == *old(self),
            valid_coord(coord) && player_at(
                *old(self),
                index_xy(coord.x as int, coord.y as int),
            ) is None ==> {
                let t = index_xy(coord.x as int, coord.y as int);
                let pa = side_pawns(*old(self), player);
                &&& r == Ok::<(), AddPawnError>(())
                &&& final(self).tiles@ == old(self).tiles@.update(
                    t,
                    Some(Pawn { player, table_index: pa.count }),
                )
                &&& side_pawns(*final(self), player).count == pa.count + 1
                &&& side_pawns(*final(self), player).tile_indexes@ == pa.tile_indexes@.update(
                    pa.count as int,
                    t as usize,
                )
                &&& side_pawns(*final(self), player.spec_reverse()) == side_pawns(
                    *old(self),
                    player.spec_reverse(),
                )
                &&& final(self).current_player == old(self).current_player
            },
    {
        let tile_index = match get_index_from_coord(coord) {
            Some(i) => i,
            None => {
                return Err(AddPawnError::InvalidCoordinate);
            },
        };

        if self.tiles[tile_index].is_some() {
            return Err(AddPawnError::OccupiedTile);
        }

        let mut pa = self.get_side_pawns(player);
        self.tiles[tile_index] = Some(Pawn { player, table_index: pa.count });
        pa.tile_indexes[pa.count] = tile_index;
        pa.count = pa.count + 1;
        self.set_side_pawns(player, pa);

        proof {
            lemma_add_pawn_wf(*old(self), *self, coord, player, tile_index);
        }
        Ok(())
    }

    /// Applies a move: the pawn on `source_index` slides to `play_index`,
    /// capturing whatever pawn stood there, and the turn passes to the
    /// other side.  Returns the successor position; `self` is untouched.
    ///
    /// Moving from an empty tile, or onto a pawn of the mover's own side,
    /// is a caller error and is excluded by precondition.
    pub fn make_move(&self, source_index: usize, play_index: usize) -> (board: BoardState)
        requires
            wf(*self),
            source_index < NUMBER_OF_TILES,
            play_index < NUMBER_OF_TILES,
            self.tiles@[source_index as int] is Some,
            player_at(*self, play_index as int) != player_at(*self, source_index as int),
        ensures
            board == move_spec(*self, source_index as int, play_index as int),
            wf(board),
            board.current_player == self.current_player.spec_reverse(),
    {
        let ghost s = source_index as int;
        let ghost d = play_index as int;
        let mut board = *self;

        match board.tiles[play_index] {
            None => {},
            Some(captured) => {
                let mut pa = board.get_side_pawns(captured.player);
                proof {
                    assert(captured.table_index < pa.count && pa.tile_indexes@[captured.table_index as int]
                        == play_index);
                }
                if pa.count > 1 && captured.table_index < pa.count - 1 {
                    let last_tile = pa.tile_indexes[pa.count - 1];
                    let moved = board.tiles[last_tile].unwrap();
                    board.tiles[last_tile] = Some(
                        Pawn { player: moved.player, table_index: captured.table_index },
                    );
                    pa.tile_indexes[captured.table_index] = last_tile;
                }
                pa.count = pa.count - 1;
                board.set_side_pawns(captured.player, pa);
            },
        }
        proof {
            assert(board =~= remove_captured(*self, d));
            if self.tiles@[d] is Some {
                lemma_remove_captured_props(*self, d);
            }
            assert(board.tiles@[s] == self.tiles@[s]);
        }

        let pawn = board.tiles[source_index].unwrap();
        board.tiles[play_index] = Some(pawn);
        board.tiles[source_index] = None;
        let mut pa = board.get_side_pawns(pawn.player);
        proof {
            assert(side_pawns(board, pawn.player) == side_pawns(*self, pawn.player));
            assert(pawn.table_index < pa.count);
        }
        pa.tile_indexes[pawn.table_index] = play_index;
        board.set_side_pawns(pawn.player, pa);
        board.current_player = board.current_player.reverse();

        proof {
            assert(board =~= move_spec(*self, s, d));
            lemma_move_spec_props(*self, s, d);
        }
        board
    }

    /// The raw one-move destinations of the tile at `tile_index`,
    /// ignoring occupancy: lateral and diagonal neighbours for a Quad,
    /// eight neighbours for an Octo, candidates off the board dropped.
    pub fn get_possible_moves(&self, tile_index: usize) -> (r: Vec<usize>)
        requires
            tile_index < NUMBER_OF_TILES,
        ensures
            r@ == dests_of(tile_index as int),
    {
        let coord = get_coord_from_index(tile_index);
        let mut possible_plays: Vec<usize> = Vec::new();

        match get_tile_shape_from_index(tile_index) {
            TileShape::Quad => {
                push_if_tile(&mut possible_plays, coord.x + 1, coord.y);
                push_if_tile(&mut possible_plays, coord.x - 1, coord.y);
                push_if_tile(&mut possible_plays, coord.x + 1, coord.y - 1);
                push_if_tile(&mut possible_plays, coord.x - 1, coord.y - 1);
            },
            TileShape::Octo => {
                push_if_tile(&mut possible_plays, coord.x + 2, coord.y);
                push_if_tile(&mut possible_plays, coord.x - 2, coord.y);
                push_if_tile(&mut possible_plays, coord.x, coord.y + 1);
                push_if_tile(&mut possible_plays, coord.x, coord.y - 1);
                push_if_tile(&mut possible_plays, coord.x + 1, coord.y);
                push_if_tile(&mut possible_plays, coord.x - 1, coord.y);
                push_if_tile(&mut possible_plays, coord.x + 1, coord.y + 1);
                push_if_tile(&mut possible_plays, coord.x - 1, coord.y + 1);
            },
        }

        proof {
            assert(possible_plays@ =~= dests_of(tile_index as int));
        }
        possible_plays
    }

    /// The destinations legal for `player_side` from `tile_index`: the
    /// raw destinations with tiles held by `player_side` itself removed.
    pub fn get_possible_plays(&self, tile_index: usize, player_side: PlayerSide) -> (r: Vec<usize>)
        requires
            tile_index < NUMBER_OF_TILES,
        ensures
            r@ == plays_of(*self, tile_index as int, player_side),
    {
        let moves = self.get_possible_moves(tile_index);
        let ghost pred = |t: usize| player_at(*self, t as int) != Some(player_side);
        proof {
            lemma_dests_in_range(tile_index as int);
        }

        let mut result: Vec<usize> = Vec::new();
        let mut idx: usize = 0;
        while idx < moves.len()
            invariant
                idx <= moves.len(),
                moves@ == dests_of(tile_index as int),
                forall|j: int|
                    0 <= j < moves@.len() ==> (#[trigger] moves@[j]) < NUMBER_OF_TILES,
                result@ == moves@.subrange(0, idx as int).filter(pred),
                pred == (|t: usize| player_at(*self, t as int) != Some(player_side)),
            decreases moves.len() - idx,
        {
            let t = moves[idx];
            let keep = match self.tiles[t] {
                Some(p) => p.player != player_side,
                None => true,
            };
            if keep {
                result.push(t);
            }
            proof {
                assert(moves@.subrange(0, idx as int + 1) =~= moves@.subrange(
                    0,
                    idx as int,
                ).push(t));
                assert(keep == pred(t));
            }
            idx = idx + 1;
        }
        proof {
            assert(moves@.subrange(0, moves@.len() as int) =~= moves@);
        }
        result
    }
}

/// The board after the pawn on tile `d`, if any, is unregistered from its
/// side's pawn list by swap-removal: the last live entry moves into the
/// freed slot (and the pawn it names has its `table_index` re-pointed),
/// then the count drops by one.  The tile array still shows the captured
/// pawn on `d` itself; the subsequent placement overwrites it.
pub open spec fn remove_captured(b: BoardState, d: int) -> BoardState {
    match b.tiles@[d] {
        None => b,
        Some(q) => {
            let pa = side_pawns(b, q.player);
            let c = pa.count as int;
            let k = q.table_index as int;
            if c > 1 && k < c - 1 {
                let lt = pa.tile_indexes@[c - 1];
                let moved = b.tiles@[lt as int]->Some_0;
                let tiles1 = vstd::array::spec_array_update(
                    b.tiles,
                    lt as int,
                    Some(Pawn { player: moved.player, table_index: q.table_index }),
                );
                let pa1 = PawnArray {
                    tile_indexes: vstd::array::spec_array_update(pa.tile_indexes, k, lt),
                    count: (c - 1) as usize,
                };
                with_side(BoardState { tiles: tiles1, ..b }, q.player, pa1)
            } else {
                with_side(
                    b,
                    q.player,
                    PawnArray { tile_indexes: pa.tile_indexes, count: (c - 1) as usize },
                )
            }
        },
    }
}

/// The board after the pawn on tile `s` slides to tile `d`: the tile
/// array moves it, its side's list entry follows it, and the turn passes
/// to the other side.
pub open spec fn place_moved(b: BoardState, s: int, d: int) -> BoardState {
    match b.tiles@[s] {
        None => b,
        Some(p) => {
            let tiles1 = vstd::array::spec_array_update(
                vstd::array::spec_array_update(b.tiles, d, Some(p)),
                s,
                None,
            );
            let pa = side_pawns(b, p.player);
            let pa1 = PawnArray {
                tile_indexes: vstd::array::spec_array_update(
                    pa.tile_indexes,
                    p.table_index as int,
                    d as usize,
                ),
                count: pa.count,
            };
            let b1 = with_side(BoardState { tiles: tiles1, ..b }, p.player, pa1);
            BoardState { current_player: b.current_player.spec_reverse(), ..b1 }
        },
    }
}

/// The full move transition: capture whatever stands on `d`, then slide
/// the pawn from `s` onto `d` and flip the turn.
pub open spec fn move_spec(b: BoardState, s: int, d: int) -> BoardState {
    place_moved(remove_captured(b, d), s, d)
}

/// The one-candidate sequence: the packed index of `(x, y)` when a tile
/// exists there, empty otherwise.
pub open spec fn opt_dest(x: int, y: int) -> Seq<usize> {
    if valid_xy(x, y) {
        seq![index_xy(x, y) as usize]
    } else {
        Seq::empty()
    }
}

/// Raw destinations of a Quad tile at `(x, y)`: the two lateral
/// neighbours and the two diagonal neighbours one row down, in that
/// order, with candidates off the board dropped.
pub open spec fn quad_dests(x: int, y: int) -> Seq<usize> {
    opt_dest(x + 1, y) + opt_dest(x - 1, y) + opt_dest(x + 1, y - 1) + opt_dest(x - 1, y - 1)
}

/// Raw destinations of an Octo tile at `(x, y)`: the four
/// two-apart/vertical neighbours, then the four diagonal neighbours, in
/// that order, with candidates off the board dropped.
pub open spec fn octo_dests(x: int, y: int) -> Seq<usize> {
    opt_dest(x + 2, y) + opt_dest(x - 2, y) + opt_dest(x, y + 1) + opt_dest(x, y - 1) + opt_dest(
        x + 1,
        y,
    ) + opt_dest(x - 1, y) + opt_dest(x + 1, y + 1) + opt_dest(x - 1, y + 1)
}

/// Raw one-move destinations of the tile at packed index `i`, ignoring
/// occupancy: a pure function of the tile's shape and coordinate.
pub open spec fn dests_of(i: int) -> Seq<usize> {
    if shape_of_index(i) is Quad {
        quad_dests(coord_x(i), coord_y(i))
    } else {
        octo_dests(coord_x(i), coord_y(i))
    }
}

/// Destinations legal for `side` from tile `i`: the raw destinations
/// minus tiles occupied by `side` itself (empty tiles and enemy-held
/// tiles stay; landing on an enemy captures it).
pub open spec fn plays_of(b: BoardState, i: int, side: PlayerSide) -> Seq<usize> {
    dests_of(i).filter(|t: usize| player_at(b, t as int) != Some(side))
}

/// Every raw destination is a tile index in range.
pub proof fn lemma_dests_in_range(i: int)
    requires
        0 <= i < NUMBER_OF_TILES,
    ensures
        forall|j: int| 0 <= j < dests_of(i).len() ==> (#[trigger] dests_of(i)[j]) < NUMBER_OF_TILES,
{
    let x = coord_x(i);
    let y = coord_y(i);
    assert forall|j: int| 0 <= j < dests_of(i).len() implies (#[trigger] dests_of(i)[j])
        < NUMBER_OF_TILES by {
        crate::grid::lemma_index_coord_round_trip(i);
        lemma_opt_dest_in_range(x + 1, y);
        lemma_opt_dest_in_range(x - 1, y);
        lemma_opt_dest_in_range(x + 1, y - 1);
        lemma_opt_dest_in_range(x - 1, y - 1);
        lemma_opt_dest_in_range(x + 2, y);
        lemma_opt_dest_in_range(x - 2, y);
        lemma_opt_dest_in_range(x, y + 1);
        lemma_opt_dest_in_range(x, y - 1);
        lemma_opt_dest_in_range(x + 1, y + 1);
        lemma_opt_dest_in_range(x - 1, y + 1);
    }
}

/// Every element of a one-candidate sequence is an index in range.
proof fn lemma_opt_dest_in_range(x: int, y: int)
    ensures
        forall|j: int|
            0 <= j < opt_dest(x, y).len() ==> (#[trigger] opt_dest(x, y)[j]) < NUMBER_OF_TILES,
{
    if valid_xy(x, y) {
        crate::grid::lemma_coord_index_round_trip(x, y);
    }
}

/// Whether `x` occurs in `v`.
pub(crate) fn vec_contains(v: &Vec<usize>, x: usize) -> (r: bool)
    ensures
        r == v@.contains(x),
{
    let mut m: usize = 0;
    while m < v.len()
        invariant
            m <= v.len(),
            forall|i: int| 0 <= i < m ==> v@[i] != x,
        decreases v.len() - m,
    {
        if v[m] == x {
            proof {
                assert(v@[m as int] == x);
            }
            return true;
        }
        m = m + 1;
    }
    false
}

/// Appends the packed index of `(x, y)` when a tile exists there.
fn push_if_tile(plays: &mut Vec<usize>, x: i32, y: i32)
    ensures
        final(plays)@ == old(plays)@ + opt_dest(x as int, y as int),
{
    match get_index_from_coord(TileCoord { x, y }) {
        Some(index) => {
            plays.push(index);
            assert(plays@ =~= old(plays)@ + opt_dest(x as int, y as int));
        },
        None => {
            assert(plays@ =~= old(plays)@ + opt_dest(x as int, y as int));
        },
    }
}

/// Unregistering the captured pawn leaves a board whose pawn lists are
/// intact except that the captured side's list is one shorter and no
/// longer names `d`; tiles keep their occupants (one enemy pawn may carry
/// a new `table_index`).
proof fn lemma_remove_captured_props(b: BoardState, d: int)
    requires
        wf(b),
        0 <= d < NUMBER_OF_TILES,
        b.tiles@[d] is Some,
    ensures
        ({
            let q = b.tiles@[d]->Some_0;
            let e = q.player;
            let bc = remove_captured(b, d);
            &&& bc.current_player == b.current_player
            &&& side_pawns(bc, e.spec_reverse()) == side_pawns(b, e.spec_reverse())
            &&& side_pawns(bc, e).count + 1 == side_pawns(b, e).count
            &&& forall|i: int| 0 <= i < NUMBER_OF_TILES ==> player_at(bc, i) == player_at(b, i)
            &&& bc.tiles@[d] == b.tiles@[d]
            &&& forall|j: int|
                0 <= j < NUMBER_OF_TILES && player_at(b, j) != Some(e) ==> bc.tiles@[j]
                    == b.tiles@[j]
            &&& wf_side(bc, e)
            &&& forall|k2: int|
                0 <= k2 < side_pawns(bc, e).count ==> (#[trigger] side_pawns(
                    bc,
                    e,
                ).tile_indexes@[k2]) != d as usize
            &&& forall|i: int|
                0 <= i < NUMBER_OF_TILES && i != d ==> ((#[trigger] bc.tiles@[i]) matches Some(p)
                    ==> p.table_index < side_pawns(bc, p.player).count && side_pawns(
                    bc,
                    p.player,
                ).tile_indexes@[p.table_index as int] == i as usize)
        }),
{
    let q = b.tiles@[d]->Some_0;
    let e = q.player;
    let pa = side_pawns(b, e);
    let c = pa.count as int;
    let k = q.table_index as int;
    assert(k < c && pa.tile_indexes@[k] == d as usize);
    let bc = remove_captured(b, d);
    if c > 1 && k < c - 1 {
        let lt = pa.tile_indexes@[c - 1];
        assert(lt < NUMBER_OF_TILES && b.tiles@[lt as int] == Some(
            Pawn { player: e, table_index: (c - 1) as usize },
        ));
        assert(lt != d as usize);
        assert(side_pawns(bc, e).tile_indexes@ == pa.tile_indexes@.update(k, lt));
        assert(bc.tiles@ == b.tiles@.update(
            lt as int,
            Some(Pawn { player: e, table_index: k as usize }),
        ));
        assert forall|k2: int| 0 <= k2 < c - 1 implies (#[trigger] side_pawns(
            bc,
            e,
        ).tile_indexes@[k2]) < NUMBER_OF_TILES && bc.tiles@[side_pawns(
            bc,
            e,
        ).tile_indexes@[k2] as int] == Some(Pawn { player: e, table_index: k2 as usize })
            && side_pawns(bc, e).tile_indexes@[k2] != d as usize by {
            if k2 == k {
                assert(side_pawns(bc, e).tile_indexes@[k2] == lt);
            } else {
                assert(side_pawns(bc, e).tile_indexes@[k2] == pa.tile_indexes@[k2]);
                assert(b.tiles@[pa.tile_indexes@[k2] as int] == Some(
                    Pawn { player: e, table_index: k2 as usize },
                ));
                assert(pa.tile_indexes@[k2] != lt);
                assert(pa.tile_indexes@[k2] != d as usize);
            }
        }
        assert forall|i: int| 0 <= i < NUMBER_OF_TILES && i != d implies ((#[trigger] bc.tiles@[i])
            matches Some(p) ==> p.table_index < side_pawns(bc, p.player).count && side_pawns(
            bc,
            p.player,
        ).tile_indexes@[p.table_index as int] == i as usize) by {
            if bc.tiles@[i] is Some {
                let p = bc.tiles@[i]->Some_0;
                if i == lt as int {
                    assert(p == Pawn { player: e, table_index: k as usize });
                } else {
                    assert(bc.tiles@[i] == b.tiles@[i]);
                    if p.player == e {
                        assert(p.table_index as int != c - 1);
                        assert(p.table_index as int != k);
                    }
                }
            }
        }
    } else {
        assert(k == c - 1);
        assert(side_pawns(bc, e).tile_indexes@ == pa.tile_indexes@);
        assert(bc.tiles@ == b.tiles@);
        assert forall|k2: int| 0 <= k2 < c - 1 implies (#[trigger] side_pawns(
            bc,
            e,
        ).tile_indexes@[k2]) != d as usize by {
            assert(b.tiles@[pa.tile_indexes@[k2] as int] == Some(
                Pawn { player: e, table_index: k2 as usize },
            ));
        }
    }
}

/// The move transition preserves the board invariant, flips the turn,
/// moves exactly one pawn in the occupancy view, keeps the mover's pawn
/// count, and lowers the captured side's count by one on a capture.
#[verifier::rlimit(80)]
#[verifier::spinoff_prover]
pub proof fn lemma_move_spec_props(b: BoardState, s: int, d: int)
    requires
        wf(b),
        0 <= s < NUMBER_OF_TILES,
        0 <= d < NUMBER_OF_TILES,
        b.tiles@[s] is Some,
        player_at(b, d) != player_at(b, s),
    ensures
        ({
            let m = move_spec(b, s, d);
            let p = b.tiles@[s]->Some_0;
            &&& wf(m)
            &&& m.current_player == b.current_player.spec_reverse()
            &&& forall|i: int|
                0 <= i < NUMBER_OF_TILES ==> player_at(m, i) == (if i == s {
                    None::<PlayerSide>
                } else if i == d {
                    player_at(b, s)
                } else {
                    player_at(b, i)
                })
            &&& side_pawns(m, p.player).count == side_pawns(b, p.player).count
            &&& player_at(b, d) is Some ==> side_pawns(m, p.player.spec_reverse()).count + 1
                == side_pawns(b, p.player.spec_reverse()).count
            &&& player_at(b, d) is None ==> side_pawns(m, p.player.spec_reverse()) == side_pawns(
                b,
                p.player.spec_reverse(),
            )
        }),
{
    let p = b.tiles@[s]->Some_0;
    let ms = p.player;
    let os = ms.spec_reverse();
    assert(s != d);
    if b.tiles@[d] is Some {
        lemma_remove_captured_props(b, d);
        assert(b.tiles@[d]->Some_0.player == os);
    }
    let bc = remove_captured(b, d);
    assert(side_pawns(bc, ms) == side_pawns(b, ms));
    assert(bc.tiles@[s] == b.tiles@[s]);
    assert(bc.tiles@[d] == b.tiles@[d]);
    let m = place_moved(bc, s, d);
    let mpa0 = side_pawns(b, ms);
    let mpa1 = side_pawns(m, ms);
    assert(p.table_index < mpa0.count && mpa0.tile_indexes@[p.table_index as int] == s as usize);
    assert(mpa1.tile_indexes@ == mpa0.tile_indexes@.update(p.table_index as int, d as usize));
    assert(mpa1.count == mpa0.count);
    assert(m.tiles@ == bc.tiles@.update(d, Some(p)).update(s, None));
    assert(side_pawns(m, os) == side_pawns(bc, os));

    // the mover's list stays well formed: the moved slot now names `d`,
    // every other slot's tile is untouched
    assert forall|j: int| 0 <= j < mpa1.count implies (#[trigger] mpa1.tile_indexes@[j])
        < NUMBER_OF_TILES && m.tiles@[mpa1.tile_indexes@[j] as int] == Some(
        Pawn { player: ms, table_index: j as usize },
    ) by {
        if j == p.table_index {
            assert(mpa1.tile_indexes@[j] == d as usize);
        } else {
            let t = mpa0.tile_indexes@[j];
            assert(b.tiles@[t as int] == Some(Pawn { player: ms, table_index: j as usize }));
            assert(bc.tiles@[t as int] == b.tiles@[t as int]);
            assert(t as int != d);
            assert(t as int != s);
        }
    }

    // the captured side's list stays well formed: none of its remaining
    // entries name `d` or `s`, so their tiles are untouched
    let opa1 = side_pawns(m, os);
    assert forall|j: int| 0 <= j < opa1.count implies (#[trigger] opa1.tile_indexes@[j])
        < NUMBER_OF_TILES && m.tiles@[opa1.tile_indexes@[j] as int] == Some(
        Pawn { player: os, table_index: j as usize },
    ) by {
        let t = opa1.tile_indexes@[j];
        if b.tiles@[d] is Some {
            assert(bc.tiles@[t as int] == Some(Pawn { player: os, table_index: j as usize }));
            assert(t != d as usize);
            assert(t as int != s);
        } else {
            assert(b.tiles@[t as int] == Some(Pawn { player: os, table_index: j as usize }));
            assert(t as int != d);
            assert(t as int != s);
        }
    }

    // every pawn left on a tile is still registered at the slot its
    // `table_index` names
    assert forall|i: int| 0 <= i < NUMBER_OF_TILES implies ((#[trigger] m.tiles@[i]) matches Some(r)
        ==> r.table_index < side_pawns(m, r.player).count && side_pawns(
        m,
        r.player,
    ).tile_indexes@[r.table_index as int] == i as usize) by {
        if i != s && m.tiles@[i] is Some {
            let r = m.tiles@[i]->Some_0;
            if i == d {
                assert(r == p);
            } else {
                assert(m.tiles@[i] == bc.tiles@[i]);
                if r.player == ms {
                    assert(bc.tiles@[i] == b.tiles@[i]);
                    assert(r.table_index != p.table_index);
                    assert(side_pawns(m, ms).tile_indexes@[r.table_index as int]
                        == mpa0.tile_indexes@[r.table_index as int]);
                } else {
                    if b.tiles@[d] is Some {
                        assert(r.table_index < side_pawns(bc, os).count && side_pawns(
                            bc,
                            os,
                        ).tile_indexes@[r.table_index as int] == i as usize);
                    }
                }
            }
        }
    }

    // occupancy: only `s` and `d` change hands
    assert forall|i: int| 0 <= i < NUMBER_OF_TILES implies player_at(m, i) == (if i == s {
        None::<PlayerSide>
    } else if i == d {
        player_at(b, s)
    } else {
        player_at(b, i)
    }) by {
        if i != s && i != d {
            assert(player_at(bc, i) == player_at(b, i));
        }
    }
}

/// On a well-formed board each side's pawn list enumerates exactly the
/// tiles that side occupies: a tile holds a pawn of `side` if and only
/// if some live slot of `side`'s list names it.  Together with
/// `lemma_entries_distinct` this makes the live prefix a duplicate-free
/// roster of the side's pawns, so `count` is their number.
pub proof fn lemma_pawn_lists_exact(b: BoardState, side: PlayerSide)
    requires
        wf(b),
    ensures
        forall|i: int|
            0 <= i < NUMBER_OF_TILES ==> (player_at(b, i) == Some(side) <==> exists|k: int|
                0 <= k < side_pawns(b, side).count && #[trigger] side_pawns(
                    b,
                    side,
                ).tile_indexes@[k] == i as usize),
{
    assert forall|i: int| 0 <= i < NUMBER_OF_TILES implies (player_at(b, i) == Some(side)
        <==> exists|k: int|
        0 <= k < side_pawns(b, side).count && #[trigger] side_pawns(b, side).tile_indexes@[k]
            == i as usize) by {
        if player_at(b, i) == Some(side) {
            let p = b.tiles@[i]->Some_0;
            assert(side_pawns(b, side).tile_indexes@[p.table_index as int] == i as usize);
        }
    }
}

/// Capture correctness: a move onto a tile held by the other side
/// lowers that side's pawn count by exactly one, and the captured
/// tile index no longer appears anywhere in that side's live entries.
pub proof fn lemma_capture_removes(b: BoardState, s: int, d: int)
    requires
        wf(b),
        0 <= s < NUMBER_OF_TILES,
        0 <= d < NUMBER_OF_TILES,
        b.tiles@[s] is Some,
        player_at(b, d) != player_at(b, s),
        player_at(b, d) is Some,
    ensures
        ({
            let m = move_spec(b, s, d);
            let e = player_at(b, d)->Some_0;
            &&& side_pawns(m, e).count + 1 == side_pawns(b, e).count
            &&& forall|k: int|
                0 <= k < side_pawns(m, e).count ==> (#[trigger] side_pawns(
                    m,
                    e,
                ).tile_indexes@[k]) != d as usize
        }),
{
    lemma_move_spec_props(b, s, d);
    let m = move_spec(b, s, d);
    let e = player_at(b, d)->Some_0;
    let p = b.tiles@[s]->Some_0;
    assert(e == p.player.spec_reverse());
    assert(player_at(m, d) == Some(p.player));
    assert forall|k: int| 0 <= k < side_pawns(m, e).count implies (#[trigger] side_pawns(
        m,
        e,
    ).tile_indexes@[k]) != d as usize by {
        if side_pawns(m, e).tile_indexes@[k] == d as usize {
            assert(m.tiles@[d] == Some(Pawn { player: e, table_index: k as usize }));
        }
    }
}

/// Adding a pawn on a free tile preserves the board invariant.
proof fn lemma_add_pawn_wf(
    b0: BoardState,
    b1: BoardState,
    coord: TileCoord,
    player: PlayerSide,
    t: usize,
)
    requires
        wf(b0),
        side_pawns(b0, player).count < MAX_PAWN_NUMBER,
        valid_coord(coord),
        t == index_xy(coord.x as int, coord.y as int),
        t < NUMBER_OF_TILES,
        b0.tiles@[t as int] is None,
        b1.tiles@ == b0.tiles@.update(
            t as int,
            Some(Pawn { player, table_index: side_pawns(b0, player).count }),
        ),
        side_pawns(b1, player).count == side_pawns(b0, player).count + 1,
        side_pawns(b1, player).tile_indexes@ == side_pawns(b0, player).tile_indexes@.update(
            side_pawns(b0, player).count as int,
            t,
        ),
        side_pawns(b1, player.spec_reverse()) == side_pawns(b0, player.spec_reverse()),
    ensures
        wf(b1),
{
    let pa0 = side_pawns(b0, player);
    let pa1 = side_pawns(b1, player);
    assert forall|k: int| 0 <= k < pa1.count implies (#[trigger] pa1.tile_indexes@[k])
        < NUMBER_OF_TILES && b1.tiles@[pa1.tile_indexes@[k] as int] == Some(
        Pawn { player, table_index: k as usize },
    ) by {
        if k < pa0.count {
            assert(pa1.tile_indexes@[k] == pa0.tile_indexes@[k]);
            assert(b0.tiles@[pa0.tile_indexes@[k] as int] == Some(
                Pawn { player, table_index: k as usize },
            ));
            assert(pa0.tile_indexes@[k] != t);
        }
    }
}

} // verus!
