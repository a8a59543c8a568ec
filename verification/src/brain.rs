//! The search engine ("Brain"): enumerates a side's legal plays, scores
//! positions with a material-plus-mobility heuristic, and picks a move by
//! bounded greedy look-ahead.
//!
//! The look-ahead is deliberately not minimax: at every ply of a
//! continuation the single best immediate follow-up is taken for
//! whichever side moves at that ply, so the search is a single-player
//! look-ahead heuristic rather than an adversarial one.

use vstd::prelude::*;
use crate::board::BoardState;
use crate::board::dests_of;
use crate::board::lemma_dests_in_range;
use crate::board::move_spec;
use crate::board::plays_of;
use crate::board::player_at;
use crate::board::side_pawns;
use crate::board::vec_contains;
use crate::board::wf;
use crate::game::MAX_PAWN_NUMBER;
use crate::game::PlayerSide;
use crate::grid::NUMBER_OF_TILES;

verus! {

broadcast use vstd::array::group_array_axioms, vstd::seq_lib::group_seq_lib_default,
    vstd::prelude::Seq::lemma_filter_push, vstd::prelude::Seq::lemma_filter_contains_rev;

/// The move-search engine.  Stateless: every function takes the board it
/// works on.
pub struct Brain {}

/// The plays of the pawn on `src`, as (source, destination) pairs, in
/// destination order.
pub open spec fn pawn_plays(b: BoardState, src: usize, side: PlayerSide) -> Seq<(usize, usize)> {
    plays_of(b, src as int, side).map_values(|d: usize| (src, d))
}

/// The plays of `side`'s first `n` pawns, in pawn-list order.
pub open spec fn plays_upto(b: BoardState, side: PlayerSide, n: int) -> Seq<(usize, usize)>
    decreases n,
{
    if n <= 0 {
        Seq::empty()
    } else {
        plays_upto(b, side, n - 1) + pawn_plays(b, side_pawns(b, side).tile_indexes@[n - 1], side)
    }
}

/// Every legal play of `side`: for each live pawn, in pawn-list order,
/// all of its legal destinations.
pub open spec fn all_plays(b: BoardState, side: PlayerSide) -> Seq<(usize, usize)> {
    plays_upto(b, side, side_pawns(b, side).count as int)
}

/// A play is sound for `side`: it starts on a tile holding a pawn of
/// `side` and ends on a tile in range that `side` does not hold.
pub open spec fn play_ok(b: BoardState, side: PlayerSide, play: (usize, usize)) -> bool {
    &&& play.0 < NUMBER_OF_TILES
    &&& play.1 < NUMBER_OF_TILES
    &&& player_at(b, play.0 as int) == Some(side)
    &&& player_at(b, play.1 as int) != Some(side)
}

proof fn lemma_plays_upto_props(b: BoardState, side: PlayerSide, n: int)
    requires
        wf(b),
        0 <= n <= side_pawns(b, side).count,
    ensures
        forall|j: int|
            0 <= j < plays_upto(b, side, n).len() ==> play_ok(
                b,
                side,
                #[trigger] plays_upto(b, side, n)[j],
            ),
    decreases n,
{
    if n > 0 {
        lemma_plays_upto_props(b, side, n - 1);
        let src = side_pawns(b, side).tile_indexes@[n - 1];
        let pp = pawn_plays(b, src, side);
        assert forall|j: int| 0 <= j < pp.len() implies play_ok(b, side, pp[j]) by {
            let d = plays_of(b, src as int, side)[j];
            assert(plays_of(b, src as int, side).contains(d));
            assert(dests_of(src as int).contains(d));
            lemma_dests_in_range(src as int);
            let w = choose|w: int|
                0 <= w < dests_of(src as int).len() && dests_of(src as int)[w] == d;
            assert(dests_of(src as int)[w] < NUMBER_OF_TILES);
        }
        let prev = plays_upto(b, side, n - 1);
        assert forall|j: int| 0 <= j < plays_upto(b, side, n).len() implies play_ok(
            b,
            side,
            #[trigger] plays_upto(b, side, n)[j],
        ) by {
            if j < prev.len() {
                assert(plays_upto(b, side, n)[j] == prev[j]);
            } else {
                assert(plays_upto(b, side, n)[j] == pp[j - prev.len()]);
            }
        }
    }
}

/// Every play enumerated by `all_plays` is sound for its side.
pub proof fn lemma_all_plays_props(b: BoardState, side: PlayerSide)
    requires
        wf(b),
    ensures
        forall|j: int|
            0 <= j < all_plays(b, side).len() ==> play_ok(
                b,
                side,
                #[trigger] all_plays(b, side)[j],
            ),
{
    lemma_plays_upto_props(b, side, side_pawns(b, side).count as int);
}

/// All tile indices, in ascending order.
pub open spec fn all_tiles() -> Seq<usize> {
    Seq::new(NUMBER_OF_TILES as nat, |i: int| i as usize)
}

/// Tile `j` can be reached from `t` by two raw moves, via some one-move
/// destination of `t`.
pub open spec fn reachable_in_two(t: int, j: usize) -> bool {
    exists|k: int|
        0 <= k < dests_of(t).len() && #[trigger] dests_of(dests_of(t)[k] as int).contains(j)
}

/// Membership in the second layer of `t`: reachable in two raw moves,
/// but neither a one-move destination of `t` nor `t` itself.
pub open spec fn in_second_layer(t: int, j: usize) -> bool {
    &&& !dests_of(t).contains(j)
    &&& j as int != t
    &&& reachable_in_two(t, j)
}

/// The second layer of `t`: the tiles threatened in two moves, as a
/// duplicate-free sequence in ascending index order.
pub open spec fn second_layer(t: int) -> Seq<usize> {
    all_tiles().filter(|j: usize| in_second_layer(t, j))
}

/// Contribution of one one-move-reachable tile to `me`'s mobility term:
/// a supporting own pawn is worth 10, an attackable enemy pawn costs 100
/// (it threatens the pawn being scored), an empty tile nothing.
pub open spec fn tile_score_first(b: BoardState, me: PlayerSide, t: usize) -> int {
    match player_at(b, t as int) {
        None => 0,
        Some(p) => if p == me {
            10
        } else {
            -100
        },
    }
}

/// Contribution of one two-move-reachable tile: an enemy pawn in that
/// range is worth 30 as a capture threat; anything else nothing.
pub open spec fn tile_score_second(b: BoardState, me: PlayerSide, t: usize) -> int {
    match player_at(b, t as int) {
        None => 0,
        Some(p) => if p == me {
            0
        } else {
            30
        },
    }
}

/// Sum of first-layer contributions over a sequence of tiles.
pub open spec fn sum_score_first(b: BoardState, me: PlayerSide, s: Seq<usize>) -> int
    decreases s.len(),
{
    if s.len() == 0 {
        0
    } else {
        sum_score_first(b, me, s.drop_last()) + tile_score_first(b, me, s.last())
    }
}

/// Sum of second-layer contributions over a sequence of tiles.
pub open spec fn sum_score_second(b: BoardState, me: PlayerSide, s: Seq<usize>) -> int
    decreases s.len(),
{
    if s.len() == 0 {
        0
    } else {
        sum_score_second(b, me, s.drop_last()) + tile_score_second(b, me, s.last())
    }
}

/// The mobility term of the pawn on tile `t`.
pub open spec fn pawn_mobility(b: BoardState, me: PlayerSide, t: usize) -> int {
    sum_score_first(b, me, dests_of(t as int)) + sum_score_second(b, me, second_layer(t as int))
}

/// Mobility of `me`'s first `n` pawns, in pawn-list order.
pub open spec fn mobility_upto(b: BoardState, me: PlayerSide, n: int) -> int
    decreases n,
{
    if n <= 0 {
        0
    } else {
        mobility_upto(b, me, n - 1) + pawn_mobility(
            b,
            me,
            side_pawns(b, me).tile_indexes@[n - 1],
        )
    }
}

/// The heuristic value of `b` from the perspective of the side to move:
/// material (own pawns at 190, enemy pawns at 200, a capture-seeking
/// bias), the mobility term of every own pawn, and dominating terminal
/// bonuses when either side is out of pawns.
pub open spec fn eval_spec(b: BoardState) -> int {
    let me = b.current_player;
    let myc = side_pawns(b, me).count as int;
    let theirc = side_pawns(b, me.spec_reverse()).count as int;
    190 * myc - 200 * theirc + mobility_upto(b, me, myc) + (if myc == 0 {
        -2000int
    } else {
        0int
    }) + (if theirc == 0 {
        2000int
    } else {
        0int
    })
}

proof fn lemma_sum_first_bounds(b: BoardState, me: PlayerSide, s: Seq<usize>)
    ensures
        -100 * s.len() <= sum_score_first(b, me, s) <= 10 * s.len(),
    decreases s.len(),
{
    if s.len() > 0 {
        lemma_sum_first_bounds(b, me, s.drop_last());
    }
}

proof fn lemma_sum_second_bounds(b: BoardState, me: PlayerSide, s: Seq<usize>)
    ensures
        0 <= sum_score_second(b, me, s) <= 30 * s.len(),
    decreases s.len(),
{
    if s.len() > 0 {
        lemma_sum_second_bounds(b, me, s.drop_last());
    }
}

/// A tile has at most eight raw destinations.
proof fn lemma_dests_len(i: int)
    ensures
        dests_of(i).len() <= 8,
{
}

proof fn lemma_pawn_mobility_bounds(b: BoardState, me: PlayerSide, t: usize)
    ensures
        -800 <= pawn_mobility(b, me, t) <= 1400,
{
    lemma_dests_len(t as int);
    lemma_sum_first_bounds(b, me, dests_of(t as int));
    assert(all_tiles().len() == NUMBER_OF_TILES);
    assert(second_layer(t as int).len() <= NUMBER_OF_TILES);
    lemma_sum_second_bounds(b, me, second_layer(t as int));
}

proof fn lemma_mobility_upto_bounds(b: BoardState, me: PlayerSide, n: int)
    requires
        0 <= n,
    ensures
        -800 * n <= mobility_upto(b, me, n) <= 1400 * n,
    decreases n,
{
    if n > 0 {
        lemma_mobility_upto_bounds(b, me, n - 1);
        lemma_pawn_mobility_bounds(b, me, side_pawns(b, me).tile_indexes@[n - 1]);
    }
}

/// The heuristic value of a well-formed board is small: the search can
/// keep scores in a machine integer with room to spare.
pub proof fn lemma_eval_bounds(b: BoardState)
    requires
        wf(b),
    ensures
        -15000 <= eval_spec(b) <= 15000,
{
    let me = b.current_player;
    lemma_mobility_upto_bounds(b, me, side_pawns(b, me).count as int);
}

/// The value attributed to applying `play` to `b`: the heuristic value
/// of the successor position, from the successor's side to move.
pub open spec fn eval_of_play(b: BoardState, play: (usize, usize)) -> int {
    eval_spec(move_spec(b, play.0 as int, play.1 as int))
}

/// The index of the highest-valued play among the first `n`; the
/// earliest wins ties.
pub open spec fn best_play_index(b: BoardState, plays: Seq<(usize, usize)>, n: int) -> int
    decreases n,
{
    if n <= 1 {
        0
    } else {
        let prev = best_play_index(b, plays, n - 1);
        if eval_of_play(b, plays[n - 1]) > eval_of_play(b, plays[prev]) {
            n - 1
        } else {
            prev
        }
    }
}

/// One state of the greedy continuation: `remaining` plies left,
/// `result` the last score taken.  At each ply the single
/// highest-valued immediate follow-up is taken for whichever side is to
/// move — not an adversarial search.  A side with no plays ends the
/// continuation and the total ply budget is added to the score.
pub open spec fn explore_from(b: BoardState, result: int, total: int, remaining: nat) -> (
    int,
    PlayerSide,
)
    decreases remaining,
{
    if remaining == 0 {
        (result, b.current_player)
    } else {
        let plays = all_plays(b, b.current_player);
        if plays.len() == 0 {
            (result + total, b.current_player)
        } else {
            let idx = best_play_index(b, plays, plays.len() as int);
            let nb = move_spec(b, plays[idx].0 as int, plays[idx].1 as int);
            explore_from(nb, eval_spec(nb), total, (remaining - 1) as nat)
        }
    }
}

/// The greedy continuation of `b`, up to `layer` plies deep: the final
/// score and the side to move where it stopped.
pub open spec fn explore_spec(b: BoardState, layer: int) -> (int, PlayerSide) {
    explore_from(b, -10000, layer, (if layer >= 0 {
        layer
    } else {
        0
    }) as nat)
}

/// The value of a root play: the score where its greedy continuation
/// stopped, seen from the root side (negated when the continuation
/// ended with the opponent to move).
pub open spec fn root_score(b: BoardState, play: (usize, usize), layers: int) -> int {
    let nb = move_spec(b, play.0 as int, play.1 as int);
    let res = explore_spec(nb, layers);
    if res.1 != b.current_player {
        -res.0
    } else {
        res.0
    }
}

/// The index of the root play with the highest continuation value among
/// the first `n`; the earliest wins ties.
pub open spec fn best_root_index(
    b: BoardState,
    plays: Seq<(usize, usize)>,
    layers: int,
    n: int,
) -> int
    decreases n,
{
    if n <= 1 {
        0
    } else {
        let prev = best_root_index(b, plays, layers, n - 1);
        if root_score(b, plays[n - 1], layers) > root_score(b, plays[prev], layers) {
            n - 1
        } else {
            prev
        }
    }
}

/// Every second-layer tile is an index in range, and there are at most
/// as many of them as there are tiles.
proof fn lemma_second_layer_in_range(t: int)
    ensures
        forall|i: int|
            0 <= i < second_layer(t).len() ==> (#[trigger] second_layer(t)[i]) < NUMBER_OF_TILES,
        second_layer(t).len() <= NUMBER_OF_TILES,
{
    assert forall|i: int| 0 <= i < second_layer(t).len() implies (#[trigger] second_layer(t)[i])
        < NUMBER_OF_TILES by {
        let e = second_layer(t)[i];
        assert(second_layer(t).contains(e));
        assert(all_tiles().contains(e));
        let w = choose|w: int| 0 <= w < all_tiles().len() && all_tiles()[w] == e;
        assert(all_tiles()[w] == w as usize);
    }
    assert(all_tiles().len() == NUMBER_OF_TILES);
}

/// Sums the first-layer contributions of the tiles in `tiles_v`.
fn first_layer_score(board: &BoardState, me: PlayerSide, tiles_v: &Vec<usize>) -> (s: i32)
    requires
        forall|i: int| 0 <= i < tiles_v@.len() ==> (#[trigger] tiles_v@[i]) < NUMBER_OF_TILES,
        tiles_v@.len() <= NUMBER_OF_TILES,
    ensures
        s as int == sum_score_first(*board, me, tiles_v@),
{
    let mut s: i32 = 0;
    let mut fi: usize = 0;
    while fi < tiles_v.len()
        invariant
            fi <= tiles_v.len(),
            tiles_v@.len() <= NUMBER_OF_TILES,
            forall|i: int| 0 <= i < tiles_v@.len() ==> (#[trigger] tiles_v@[i]) < NUMBER_OF_TILES,
            s as int == sum_score_first(*board, me, tiles_v@.subrange(0, fi as int)),
            -100 * fi <= s as int <= 10 * fi,
        decreases tiles_v.len() - fi,
    {
        let t = tiles_v[fi];
        match board.tiles[t] {
            None => {},
            Some(p) => {
                if p.player == me {
                    s = s + 10;
                } else {
                    s = s - 100;
                }
            },
        }
        proof {
            let sub1 = tiles_v@.subrange(0, fi as int + 1);
            assert(sub1.drop_last() =~= tiles_v@.subrange(0, fi as int));
            assert(sub1.last() == tiles_v@[fi as int]);
        }
        fi = fi + 1;
    }
    proof {
        assert(tiles_v@.subrange(0, tiles_v@.len() as int) =~= tiles_v@);
    }
    s
}

/// Sums the second-layer contributions of the tiles in `tiles_v`.
fn second_layer_score(board: &BoardState, me: PlayerSide, tiles_v: &Vec<usize>) -> (s: i32)
    requires
        forall|i: int| 0 <= i < tiles_v@.len() ==> (#[trigger] tiles_v@[i]) < NUMBER_OF_TILES,
        tiles_v@.len() <= NUMBER_OF_TILES,
    ensures
        s as int == sum_score_second(*board, me, tiles_v@),
{
    let mut s: i32 = 0;
    let mut fi: usize = 0;
    while fi < tiles_v.len()
        invariant
            fi <= tiles_v.len(),
            tiles_v@.len() <= NUMBER_OF_TILES,
            forall|i: int| 0 <= i < tiles_v@.len() ==> (#[trigger] tiles_v@[i]) < NUMBER_OF_TILES,
            s as int == sum_score_second(*board, me, tiles_v@.subrange(0, fi as int)),
            0 <= s as int <= 30 * fi,
        decreases tiles_v.len() - fi,
    {
        let t = tiles_v[fi];
        match board.tiles[t] {
            None => {},
            Some(p) => {
                if p.player != me {
                    s = s + 30;
                }
            },
        }
        proof {
            let sub1 = tiles_v@.subrange(0, fi as int + 1);
            assert(sub1.drop_last() =~= tiles_v@.subrange(0, fi as int));
            assert(sub1.last() == tiles_v@[fi as int]);
        }
        fi = fi + 1;
    }
    proof {
        assert(tiles_v@.subrange(0, tiles_v@.len() as int) =~= tiles_v@);
    }
    s
}

impl Brain {
    /// The one-move destinations of `tile_index` (ignoring occupancy),
    /// paired with its second layer: every tile reachable in two raw
    /// moves that is not a one-move destination and not the tile itself,
    /// deduplicated and sorted ascending for determinism.
    #[verifier::rlimit(80)]
    #[verifier::spinoff_prover]
    pub fn get_two_layer_moves(board: BoardState, tile_index: usize) -> (r: (
        Vec<usize>,
        Vec<usize>,
    ))
        requires
            tile_index < NUMBER_OF_TILES,
        ensures
            r.0@ == dests_of(tile_index as int),
            r.1@ == second_layer(tile_index as int),
    {
        let first_layer = board.get_possible_moves(tile_index);
        proof {
            lemma_dests_in_range(tile_index as int);
        }
        let ghost t = tile_index as int;
        let ghost pred = |j2: usize| in_second_layer(t, j2);
        let mut second: Vec<usize> = Vec::new();
        let mut j: usize = 0;
        while j < NUMBER_OF_TILES
            invariant
                j <= NUMBER_OF_TILES,
                t == tile_index as int,
                tile_index < NUMBER_OF_TILES,
                first_layer@ == dests_of(t),
                forall|i: int|
                    0 <= i < first_layer@.len() ==> (#[trigger] first_layer@[i])
                        < NUMBER_OF_TILES,
                pred == (|j2: usize| in_second_layer(t, j2)),
                second@ == all_tiles().subrange(0, j as int).filter(pred),
            decreases NUMBER_OF_TILES - j,
        {
            let mut reach = false;
            let mut k: usize = 0;
            while k < first_layer.len()
                invariant
                    k <= first_layer.len(),
                    t == tile_index as int,
                    first_layer@ == dests_of(t),
                    forall|i: int|
                        0 <= i < first_layer@.len() ==> (#[trigger] first_layer@[i])
                            < NUMBER_OF_TILES,
                    reach ==> reachable_in_two(t, j),
                    !reach ==> forall|k2: int|
                        0 <= k2 < k ==> !dests_of(
                            #[trigger] first_layer@[k2] as int,
                        ).contains(j),
                decreases first_layer.len() - k,
            {
                let moves = board.get_possible_moves(first_layer[k]);
                if vec_contains(&moves, j) {
                    proof {
                        assert(dests_of(first_layer@[k as int] as int).contains(j));
                    }
                    reach = true;
                }
                k = k + 1;
            }
            proof {
                if !reach && reachable_in_two(t, j) {
                    let k2 = choose|k2: int|
                        0 <= k2 < dests_of(t).len() && #[trigger] dests_of(
                            dests_of(t)[k2] as int,
                        ).contains(j);
                    assert(!dests_of(first_layer@[k2] as int).contains(j));
                }
            }
            let in_first = vec_contains(&first_layer, j);
            if reach && !in_first && j != tile_index {
                second.push(j);
            }
            proof {
                assert(pred(j) == (reach && !in_first && j != tile_index));
                assert(all_tiles()[j as int] == j);
                assert(all_tiles().subrange(0, j as int + 1) =~= all_tiles().subrange(
                    0,
                    j as int,
                ).push(j));
            }
            j = j + 1;
        }
        proof {
            assert(all_tiles().subrange(0, NUMBER_OF_TILES as int) =~= all_tiles());
        }
        (first_layer, second)
    }

    /// The heuristic value of `board` from the perspective of its side
    /// to move: material with a capture-seeking bias, a mobility term
    /// for every own pawn, and dominating bonuses for won or lost
    /// positions.
    pub fn evaluate_play(board: BoardState) -> (score: i32)
        requires
            wf(board),
        ensures
            score as int == eval_spec(board),
    {
        let me = board.current_player;
        let my_pawns = board.get_side_pawns(me);
        let their_pawns = board.get_side_pawns(me.reverse());
        let ghost base = 190 * (my_pawns.count as int) - 200 * (their_pawns.count as int);
        let mut score: i32 = (my_pawns.count as i32) * 190 - (their_pawns.count as i32) * 200;
        let mut index: usize = 0;
        while index < my_pawns.count
            invariant
                wf(board),
                me == board.current_player,
                my_pawns == side_pawns(board, me),
                their_pawns == side_pawns(board, me.spec_reverse()),
                index <= my_pawns.count,
                base == 190 * (my_pawns.count as int) - 200 * (their_pawns.count as int),
                score as int == base + mobility_upto(board, me, index as int),
            decreases my_pawns.count - index,
        {
            let t = my_pawns.tile_indexes[index];
            proof {
                assert(my_pawns.tile_indexes@[index as int] < NUMBER_OF_TILES);
                lemma_dests_in_range(t as int);
                lemma_dests_len(t as int);
                lemma_second_layer_in_range(t as int);
            }
            let layers = Brain::get_two_layer_moves(board, t);
            let s1 = first_layer_score(&board, me, &layers.0);
            let s2 = second_layer_score(&board, me, &layers.1);
            proof {
                lemma_sum_first_bounds(board, me, dests_of(t as int));
                lemma_sum_second_bounds(board, me, second_layer(t as int));
                lemma_mobility_upto_bounds(board, me, index as int);
                assert(mobility_upto(board, me, index as int + 1) == mobility_upto(
                    board,
                    me,
                    index as int,
                ) + pawn_mobility(board, me, t));
            }
            score = score + s1 + s2;
            index = index + 1;
        }
        proof {
            lemma_mobility_upto_bounds(board, me, my_pawns.count as int);
        }
        if my_pawns.count == 0 {
            score = score - 2000;
        }
        if their_pawns.count == 0 {
            score = score + 2000;
        }
        score
    }

    /// Enumerates every legal play of `player_side`, walking only that
    /// side's pawn list rather than the whole board.
    fn find_all_plays(board: &BoardState, player_side: PlayerSide) -> (r: Vec<(usize, usize)>)
        requires
            wf(*board),
        ensures
            r@ == all_plays(*board, player_side),
    {
        let mut all: Vec<(usize, usize)> = Vec::new();
        let pawn_indexes = board.get_side_pawns(player_side);
        let mut idx: usize = 0;
        while idx < pawn_indexes.count
            invariant
                wf(*board),
                pawn_indexes == side_pawns(*board, player_side),
                idx <= pawn_indexes.count,
                all@ == plays_upto(*board, player_side, idx as int),
            decreases pawn_indexes.count - idx,
        {
            let pawn_index = pawn_indexes.tile_indexes[idx];
            let plays = board.get_possible_plays(pawn_index, player_side);
            let ghost prev = all@;
            let mut j: usize = 0;
            while j < plays.len()
                invariant
                    j <= plays.len(),
                    plays@ == plays_of(*board, pawn_index as int, player_side),
                    all@ == prev + plays@.subrange(0, j as int).map_values(
                        |d: usize| (pawn_index, d),
                    ),
                decreases plays.len() - j,
            {
                all.push((pawn_index, plays[j]));
                proof {
                    assert(plays@.subrange(0, j as int + 1) =~= plays@.subrange(
                        0,
                        j as int,
                    ).push(plays@[j as int]));
                    assert(plays@.subrange(0, j as int + 1).map_values(|d: usize| (pawn_index, d))
                        =~= plays@.subrange(0, j as int).map_values(|d: usize| (pawn_index, d)).push(
                        (pawn_index, plays@[j as int]),
                    ));
                    assert(all@ =~= prev + plays@.subrange(0, j as int + 1).map_values(
                        |d: usize| (pawn_index, d),
                    ));
                }
                j = j + 1;
            }
            proof {
                assert(plays@.subrange(0, plays@.len() as int) =~= plays@);
                assert(plays@.map_values(|d: usize| (pawn_index, d)) =~= pawn_plays(
                    *board,
                    pawn_index,
                    player_side,
                ));
                assert(all@ =~= plays_upto(*board, player_side, idx as int + 1));
            }
            idx = idx + 1;
        }
        all
    }

    /// Runs the greedy continuation from `board` for up to `layer`
    /// plies, taking at each ply the best immediate follow-up for
    /// whichever side moves there.  Returns the final score and the side
    /// to move where the continuation stopped.
    #[verifier::rlimit(80)]
    #[verifier::spinoff_prover]
    fn explore_branch(board: BoardState, layer: u32) -> (r: (i32, PlayerSide))
        requires
            wf(board),
            layer <= 0x3fff_ffff,
        ensures
            (r.0 as int, r.1) == explore_spec(board, layer as int),
            -15000 - layer as int <= r.0 as int <= 15000 + layer as int,
    {
        let mut result: i32 = -10000;
        let mut current_board = board;
        let mut remaining: u32 = layer;
        while remaining > 0
            invariant_except_break
                wf(current_board),
                remaining <= layer,
                layer <= 0x3fff_ffff,
                -15000 <= result as int <= 15000,
                explore_from(current_board, result as int, layer as int, remaining as nat)
                    == explore_spec(board, layer as int),
            ensures
                (result as int, current_board.current_player) == explore_spec(
                    board,
                    layer as int,
                ),
                -15000 - layer as int <= result as int <= 15000 + layer as int,
            decreases remaining,
        {
            let side = current_board.current_player;
            let plays = Brain::find_all_plays(&current_board, side);
            proof {
                lemma_all_plays_props(current_board, side);
            }
            if plays.len() == 0 {
                result = result + (layer as i32);
                break ;
            }
            let ghost aplays = plays@;

            let p0 = plays[0];
            let mut best_board = current_board.make_move(p0.0, p0.1);
            let mut best_eval = Brain::evaluate_play(best_board);
            let mut k: usize = 1;
            while k < plays.len()
                invariant
                    wf(current_board),
                    side == current_board.current_player,
                    plays@ == aplays,
                    aplays == all_plays(current_board, side),
                    aplays.len() >= 1,
                    1 <= k <= aplays.len(),
                    forall|j: int|
                        0 <= j < aplays.len() ==> play_ok(
                            current_board,
                            side,
                            #[trigger] aplays[j],
                        ),
                    0 <= best_play_index(current_board, aplays, k as int) < k,
                    best_board == move_spec(
                        current_board,
                        aplays[best_play_index(current_board, aplays, k as int)].0 as int,
                        aplays[best_play_index(current_board, aplays, k as int)].1 as int,
                    ),
                    wf(best_board),
                    best_eval as int == eval_of_play(
                        current_board,
                        aplays[best_play_index(current_board, aplays, k as int)],
                    ),
                decreases aplays.len() - k,
            {
                let pk = plays[k];
                let nb = current_board.make_move(pk.0, pk.1);
                let ev = Brain::evaluate_play(nb);
                if ev > best_eval {
                    best_board = nb;
                    best_eval = ev;
                }
                k = k + 1;
            }
            proof {
                lemma_eval_bounds(best_board);
            }
            result = best_eval;
            current_board = best_board;
            remaining = remaining - 1;
        }
        (result, current_board.current_player)
    }

    /// Picks a move for the side to move on `board`: every legal root
    /// play is scored by a greedy continuation `2 * iteration - 1` plies
    /// deep, and the highest-scoring play (the earliest on ties) is
    /// returned.  Returns `None` exactly when the side to move has no
    /// legal play, so the caller can declare the game over.
    #[verifier::rlimit(80)]
    #[verifier::spinoff_prover]
    pub fn search_best_play(board: &BoardState, iteration: u32) -> (r: Option<(usize, usize)>)
        requires
            wf(*board),
            1 <= iteration <= 0x1fff_ffff,
        ensures
            r is Some <==> all_plays(*board, board.current_player).len() > 0,
            r matches Some(play) ==> {
                let plays = all_plays(*board, board.current_player);
                play == plays[best_root_index(
                    *board,
                    plays,
                    2 * iteration - 1,
                    plays.len() as int,
                )]
            },
    {
        let side = board.current_player;
        let plays = Brain::find_all_plays(board, side);
        proof {
            lemma_all_plays_props(*board, side);
        }
        if plays.len() == 0 {
            return None;
        }
        let layers: u32 = iteration * 2 - 1;
        let ghost aplays = plays@;
        let ghost l = layers as int;

        let p0 = plays[0];
        let first_board = board.make_move(p0.0, p0.1);
        let first_explored = Brain::explore_branch(first_board, layers);
        let mut best_score: i32 = if first_explored.1 != side {
            -first_explored.0
        } else {
            first_explored.0
        };
        let mut best_idx: usize = 0;
        proof {
            assert(best_score as int == root_score(*board, aplays[0], l));
        }
        let mut k: usize = 1;
        while k < plays.len()
            invariant
                wf(*board),
                side == board.current_player,
                plays@ == aplays,
                aplays == all_plays(*board, side),
                aplays.len() >= 1,
                1 <= k <= aplays.len(),
                layers <= 0x3fff_ffff,
                l == layers as int,
                forall|j: int|
                    0 <= j < aplays.len() ==> play_ok(*board, side, #[trigger] aplays[j]),
                best_idx == best_root_index(*board, aplays, l, k as int),
                0 <= best_idx < k,
                best_score as int == root_score(*board, aplays[best_idx as int], l),
            decreases aplays.len() - k,
        {
            let pk = plays[k];
            let nb = board.make_move(pk.0, pk.1);
            let explored = Brain::explore_branch(nb, layers);
            let score: i32 = if explored.1 != side {
                -explored.0
            } else {
                explored.0
            };
            proof {
                assert(score as int == root_score(*board, aplays[k as int], l));
            }
            if score > best_score {
                best_score = score;
                best_idx = k;
            }
            k = k + 1;
        }
        Some(plays[best_idx])
    }
}

} // verus!
