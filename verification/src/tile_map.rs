//! The tile map: every tile of a board with `n` octagon columns per
//! side, in packed row-major order, carrying doubled 2-D positions as
//! the presentation layer lays them out.

use vstd::prelude::*;
use vstd::arithmetic::div_mod::lemma_fundamental_div_mod_converse;
use vstd::arithmetic::mul::lemma_mul_is_distributive_add;
use vstd::string::StringExecFns;

verus! {

/// The character of one decimal digit.
pub open spec fn digit_char(d: int) -> char {
    if d == 0 {
        '0'
    } else if d == 1 {
        '1'
    } else if d == 2 {
        '2'
    } else if d == 3 {
        '3'
    } else if d == 4 {
        '4'
    } else if d == 5 {
        '5'
    } else if d == 6 {
        '6'
    } else if d == 7 {
        '7'
    } else if d == 8 {
        '8'
    } else {
        '9'
    }
}

/// The decimal digits of `n`, most significant first, without leading
/// zeroes (zero itself is the single digit `0`).
pub open spec fn decimal_digits(n: int) -> Seq<char>
    decreases n,
{
    if n < 10 {
        seq![digit_char(n)]
    } else {
        decimal_digits(n / 10).push(digit_char(n % 10))
    }
}

/// The single-character string of one decimal digit.
fn digit_string(d: usize) -> (s: String)
    requires
        d < 10,
    ensures
        s@ == seq![digit_char(d as int)],
{
    let lit: &str = match d {
        0 => "0",
        1 => "1",
        2 => "2",
        3 => "3",
        4 => "4",
        5 => "5",
        6 => "6",
        7 => "7",
        8 => "8",
        _ => "9",
    };
    proof {
        reveal_strlit("0");
        reveal_strlit("1");
        reveal_strlit("2");
        reveal_strlit("3");
        reveal_strlit("4");
        reveal_strlit("5");
        reveal_strlit("6");
        reveal_strlit("7");
        reveal_strlit("8");
        reveal_strlit("9");
        assert(lit@ =~= seq![digit_char(d as int)]);
    }
    lit.to_owned()
}

/// The decimal rendering of `n`.
fn decimal_string(n: usize) -> (s: String)
    ensures
        s@ == decimal_digits(n as int),
    decreases n,
{
    if n < 10 {
        digit_string(n)
    } else {
        let mut s = decimal_string(n / 10);
        let d = digit_string(n % 10);
        s.append(d.as_str());
        proof {
            assert(s@ =~= decimal_digits(n as int));
        }
        s
    }
}

/// One tile and its doubled position: quads sit on even/even positions,
/// octagons on the odd/odd positions between them.
#[derive(Debug, Copy, Clone, Eq, PartialEq, Structural)]
pub enum Tile {
    Octo(usize, usize),
    Quad(usize, usize),
}

/// Base tile map: the tiles of a board with `octogon_on_side` octagon
/// columns per side, in packed order.
#[derive(Debug, Clone)]
pub struct TileMap {
    pub map: Vec<Tile>,
    pub octogon_on_side: usize,
}

/// The tile at position `i` of the map built for `n` octagon columns:
/// full rows alternate Quad and Octo and hold `2n + 1` tiles; the last
/// row holds `n + 1` quads.
pub open spec fn tile_at(n: int, i: int) -> Tile {
    let w = 2 * n + 1;
    let y = i / w;
    let j = i % w;
    if y < n {
        if j % 2 == 0 {
            Tile::Quad(j as usize, (2 * y) as usize)
        } else {
            Tile::Octo(j as usize, (2 * y + 1) as usize)
        }
    } else {
        Tile::Quad((2 * (i - n * w)) as usize, (2 * n) as usize)
    }
}

/// The console rendering of a tile: its kind and its doubled position.
pub open spec fn console_output_spec(t: Tile) -> Seq<char> {
    match t {
        Tile::Octo(x, y) => "Octo("@ + decimal_digits(x as int) + ","@ + decimal_digits(y as int)
            + ")"@,
        Tile::Quad(x, y) => "Quad("@ + decimal_digits(x as int) + ","@ + decimal_digits(y as int)
            + ")"@,
    }
}

impl Tile {
    /// Renders the tile for console inspection, kind first, then the
    /// doubled position in parentheses.
    pub fn console_output(&self) -> (s: String)
        ensures
            s@ == console_output_spec(*self),
    {
        proof {
            reveal_strlit("Octo(");
            reveal_strlit("Quad(");
            reveal_strlit(",");
            reveal_strlit(")");
        }
        match self {
            Tile::Octo(x, y) => {
                let mut s = "Octo(".to_owned();
                s.append(decimal_string(*x).as_str());
                s.append(",");
                s.append(decimal_string(*y).as_str());
                s.append(")");
                proof {
                    assert(s@ =~= console_output_spec(*self));
                }
                s
            },
            Tile::Quad(x, y) => {
                let mut s = "Quad(".to_owned();
                s.append(decimal_string(*x).as_str());
                s.append(",");
                s.append(decimal_string(*y).as_str());
                s.append(")");
                proof {
                    assert(s@ =~= console_output_spec(*self));
                }
                s
            },
        }
    }
}

impl TileMap {
    /// Builds the map: row by row, one quad per column with an octagon
    /// after it everywhere but on the last column and the last row.
    pub fn create(octogon_on_side: usize) -> (r: TileMap)
        requires
            2 * octogon_on_side + 1 <= usize::MAX,
        ensures
            r.octogon_on_side == octogon_on_side,
            r.map@.len() == (2 * octogon_on_side + 1) * octogon_on_side + octogon_on_side + 1,
            forall|i: int|
                0 <= i < r.map@.len() ==> #[trigger] r.map@[i] == tile_at(
                    octogon_on_side as int,
                    i,
                ),
    {
        let n = octogon_on_side;
        let ghost w = 2 * (n as int) + 1;
        let mut map: Vec<Tile> = Vec::new();
        let mut y: usize = 0;
        while y < n + 1
            invariant
                y <= n + 1,
                2 * n + 1 <= usize::MAX,
                w == 2 * (n as int) + 1,
                map@.len() as int == (if y as int <= n as int {
                    (y as int) * w
                } else {
                    (n as int) * w + (n as int) + 1
                }),
                forall|i: int| 0 <= i < map@.len() ==> #[trigger] map@[i] == tile_at(n as int, i),
            decreases n + 1 - y,
        {
            let mut x: usize = 0;
            while x < n + 1
                invariant
                    x <= n + 1,
                    y <= n,
                    2 * n + 1 <= usize::MAX,
                    w == 2 * (n as int) + 1,
                    map@.len() as int == (y as int) * w + (if (y as int) < n as int {
                        if (x as int) <= (n as int) {
                            2 * (x as int)
                        } else {
                            w
                        }
                    } else {
                        x as int
                    }),
                    forall|i: int|
                        0 <= i < map@.len() ==> #[trigger] map@[i] == tile_at(n as int, i),
                decreases n + 1 - x,
            {
                proof {
                    if y < n {
                        lemma_fundamental_div_mod_converse(
                            (y as int) * w + 2 * (x as int),
                            w,
                            y as int,
                            2 * (x as int),
                        );
                    } else {
                        lemma_fundamental_div_mod_converse(
                            (y as int) * w + (x as int),
                            w,
                            y as int,
                            x as int,
                        );
                    }
                }
                map.push(Tile::Quad(x * 2, y * 2));
                if x < n && y < n {
                    proof {
                        lemma_fundamental_div_mod_converse(
                            (y as int) * w + 2 * (x as int) + 1,
                            w,
                            y as int,
                            2 * (x as int) + 1,
                        );
                    }
                    map.push(Tile::Octo(x * 2 + 1, y * 2 + 1));
                }
                x = x + 1;
            }
            proof {
                lemma_mul_is_distributive_add(w, y as int, 1);
                assert((y as int + 1) * w == (y as int) * w + w) by {
                    vstd::arithmetic::mul::lemma_mul_is_commutative(w, y as int + 1);
                    vstd::arithmetic::mul::lemma_mul_is_commutative(w, y as int);
                }
            }
            y = y + 1;
        }
        TileMap { map, octogon_on_side: n }
    }
}

} // verus!
