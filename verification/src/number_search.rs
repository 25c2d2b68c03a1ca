//! The board of the number generator: the weights of the tokens, the
//! scores of the corners, what may be placed where, and what holds of every
//! board that comes of legal placements.

use vstd::prelude::*;
use crate::generation::{CornerData, EdgeData, TileData};
use crate::hex_coordinates::{within_margin, Corner, Edge, HexCoord, Tile};
use crate::hex_laws::{lemma_corner_neighbor_counts, lemma_corner_of_tile};
use crate::search::{filled, SearchState};
use crate::GameGrid;

verus! {

/// The weight of a number token: in how many ways two dice give that number,
/// for the numbers that tokens carry. Seven and every number that two dice
/// cannot give weigh nothing.
pub open spec fn weight(number: int) -> int {
    if 2 <= number <= 6 {
        number - 1
    } else if 8 <= number <= 12 {
        13 - number
    } else {
        0
    }
}

/// The weight of a number token.
pub fn prob(n: i32) -> (w: i32)
    ensures
        w == weight(n as int),
        0 <= w <= 5,
{
    match n {
        2 | 12 => 1,
        3 | 11 => 2,
        4 | 10 => 3,
        5 | 9 => 4,
        6 | 8 => 5,
        _ => 0,
    }
}

/// The number token on the tile at `coord`, if the board has a tile there
/// and it carries one.
pub open spec fn token_at(tiles: Map<Tile, TileData>, coord: Tile) -> Option<i32> {
    if tiles.contains_key(coord) {
        tiles[coord].number
    } else {
        None
    }
}

/// What the tile at `coord` adds to the score of a corner: the weight of its
/// token, or nothing where there is none.
pub open spec fn weight_at(tiles: Map<Tile, TileData>, coord: Tile) -> int {
    match token_at(tiles, coord) {
        Some(number) => weight(number as int),
        None => 0,
    }
}

/// One if the tile at `coord` carries a token, zero if not.
pub open spec fn numbered_at(tiles: Map<Tile, TileData>, coord: Tile) -> int {
    if token_at(tiles, coord) is Some {
        1
    } else {
        0
    }
}

/// How many of the three tiles around `corner` carry a token.
pub open spec fn numbered_around(tiles: Map<Tile, TileData>, corner: Corner) -> int {
    let around = corner.tile_neighbors();
    numbered_at(tiles, around[0]) + numbered_at(tiles, around[1]) + numbered_at(tiles, around[2])
}

/// The sum of the weights of the tokens on the three tiles around `corner`.
pub open spec fn weight_around(tiles: Map<Tile, TileData>, corner: Corner) -> int {
    let around = corner.tile_neighbors();
    weight_at(tiles, around[0]) + weight_at(tiles, around[1]) + weight_at(tiles, around[2])
}

/// The score of a corner: the sum of the weights around it, once at least
/// two of the tiles around it carry a token. With fewer the corner has no
/// score.
pub open spec fn corner_score(tiles: Map<Tile, TileData>, corner: Corner) -> Option<int> {
    if numbered_around(tiles, corner) >= 2 {
        Some(weight_around(tiles, corner))
    } else {
        None
    }
}

/// The score of a corner, if it has one.
pub fn get_corner_score(grid: &GameGrid, corner: Corner) -> (score: Option<i32>)
    requires
        corner.interior(),
    ensures
        match score {
            Some(sum) => corner_score(grid.tiles@, corner) == Some(sum as int),
            None => corner_score(grid.tiles@, corner) is None,
        },
{
    let around = corner.get_tile_neighbors();
    let ghost tiles = grid.tiles@;
    let mut sum: i32 = 0;
    let mut count: i32 = 0;
    let tile0 = around[0];
    match grid.tiles.get(&tile0) {
        Some(data) => {
            match data.number {
                Some(number) => {
                    sum = sum + prob(number);
                    count = count + 1;
                },
                None => {},
            }
        },
        None => {},
    }
    let tile1 = around[1];
    match grid.tiles.get(&tile1) {
        Some(data) => {
            match data.number {
                Some(number) => {
                    sum = sum + prob(number);
                    count = count + 1;
                },
                None => {},
            }
        },
        None => {},
    }
    let tile2 = around[2];
    match grid.tiles.get(&tile2) {
        Some(data) => {
            match data.number {
                Some(number) => {
                    sum = sum + prob(number);
                    count = count + 1;
                },
                None => {},
            }
        },
        None => {},
    }
    if count < 2 {
        None
    } else {
        Some(sum)
    }
}

/// Whether the token `number` may be placed at `coord`: with its weight
/// added, the score of every corner of the tile that has a score stays within
/// the bounds. Where no corner of the tile has a score yet, the weight alone
/// must not exceed the upper bound, and the lower bound must not exceed the
/// weight by more than a hundred.
pub open spec fn number_fits(
    tiles: Map<Tile, TileData>,
    min: int,
    max: int,
    coord: Tile,
    number: i32,
) -> bool {
    let added = weight(number as int);
    let corners = coord.corner_neighbors();
    &&& forall|k: int|
        0 <= k < corners.len() ==> ((#[trigger] corner_score(tiles, corners[k])) matches Some(score)
            ==> min <= score + added <= max)
    &&& (forall|k: int| 0 <= k < corners.len() ==> (#[trigger] corner_score(tiles, corners[k]))
        is None) ==> min <= 100 + added && added <= max
}

/// Every corner whose three tiles all carry a token has a score within the
/// bounds.
pub open spec fn corners_balanced(tiles: Map<Tile, TileData>, min: int, max: int) -> bool {
    forall|corner: Corner|
        corner.interior() && #[trigger] numbered_around(tiles, corner) == 3 ==> min
            <= weight_around(tiles, corner) <= max
}

/// The tile `data` with the token `number` on it.
pub open spec fn with_token(data: TileData, number: Option<i32>) -> TileData {
    TileData { number, ..data }
}

/// The board of the number generator as a mathematical value.
#[verifier::ext_equal]
pub struct NumberBoard {
    pub tiles: Map<Tile, TileData>,
    pub edges: Map<Edge, EdgeData>,
    pub corners: Map<Corner, CornerData>,
    pub min_corner_score: int,
    pub max_corner_score: int,
}

/// The board on which the number generator places tokens, with the bounds
/// that it keeps to.
pub struct NumberSearch {
    pub grid: GameGrid,
    pub min_corner_score: u32,
    pub max_corner_score: u32,
}

impl SearchState for NumberSearch {
    type Coord = Tile;

    type Fill = i32;

    type Model = NumberBoard;

    open spec fn model(&self) -> NumberBoard {
        NumberBoard {
            tiles: self.grid.tiles@,
            edges: self.grid.edges@,
            corners: self.grid.corners@,
            min_corner_score: self.min_corner_score as int,
            max_corner_score: self.max_corner_score as int,
        }
    }

    open spec fn valid(model: NumberBoard) -> bool {
        corners_balanced(model.tiles, model.min_corner_score, model.max_corner_score)
    }

    /// A token can be placed on a tile of the board that has none, and that
    /// is far enough from the ends of the coordinate range for the tiles
    /// around its corners to be representable.
    open spec fn vacant(model: NumberBoard, coord: Tile) -> bool {
        &&& model.tiles.contains_key(coord)
        &&& model.tiles[coord].number is None
        &&& within_margin(coord.x as int, coord.y as int, 2)
    }

    open spec fn legal(model: NumberBoard, coord: Tile, fill: i32) -> bool {
        number_fits(model.tiles, model.min_corner_score, model.max_corner_score, coord, fill)
    }

    open spec fn placed(model: NumberBoard, coord: Tile, fill: i32) -> NumberBoard {
        NumberBoard {
            tiles: model.tiles.insert(coord, with_token(model.tiles[coord], Some(fill))),
            ..model
        }
    }

    proof fn lemma_placed(model: NumberBoard, coord: Tile, fill: i32, other: Tile) {
        let after = Self::placed(model, coord, fill);
        let tiles = model.tiles;
        let next = after.tiles;
        let min = model.min_corner_score;
        let max = model.max_corner_score;
        assert forall|at: Tile| at != coord implies token_at(next, at) == token_at(tiles, at) by {}
        assert forall|corner: Corner|
            corner.interior() && #[trigger] numbered_around(next, corner) == 3 implies min
            <= weight_around(next, corner) <= max by {
            let around = corner.tile_neighbors();
            lemma_corner_neighbor_counts(corner);
            assert(around[0] != around[1] && around[0] != around[2] && around[1] != around[2]);
            if around[0] == coord || around[1] == coord || around[2] == coord {
                assert(around.contains(coord));
                lemma_corner_of_tile(coord, corner);
                let corners = coord.corner_neighbors();
                let k = choose|k: int| 0 <= k < corners.len() && corners[k] == corner;
                assert(token_at(tiles, coord) is None);
                assert(numbered_around(tiles, corner) == 2);
                assert(corner_score(tiles, corners[k]) == Some(weight_around(tiles, corner)));
                assert(weight_around(next, corner) == weight_around(tiles, corner) + weight(
                    fill as int,
                ));
            } else {
                assert(numbered_around(tiles, corner) == 3);
                assert(weight_around(next, corner) == weight_around(tiles, corner));
            }
        }
    }

    fn same_fill(a: &i32, b: &i32) -> (same: bool) {
        *a == *b
    }

    fn place(&mut self, coord: &Tile, fill: &i32) -> (result: Result<(), ()>) {
        let corners = coord.get_corner_neighbors();
        let ghost tiles = self.grid.tiles@;
        let mut lowest: i32 = 100;
        let mut highest: i32 = 0;
        let mut i: usize = 0;
        while i < corners.len()
            invariant
                0 <= i <= corners.len(),
                corners@ == coord.corner_neighbors(),
                within_margin(coord.x as int, coord.y as int, 2),
                tiles == self.grid.tiles@,
                0 <= highest <= 15,
                0 <= lowest <= 100,
                forall|k: int|
                    0 <= k < i ==> ((#[trigger] corner_score(tiles, corners@[k])) matches Some(
                        score,
                    ) ==> lowest <= score <= highest),
                lowest == 100 || exists|k: int|
                    0 <= k < i && #[trigger] corner_score(tiles, corners@[k]) == Some(lowest as int),
                highest == 0 || exists|k: int|
                    0 <= k < i && #[trigger] corner_score(tiles, corners@[k]) == Some(
                        highest as int,
                    ),
                (forall|k: int| 0 <= k < i ==> (#[trigger] corner_score(tiles, corners@[k]))
                    is None) ==> lowest == 100 && highest == 0,
            decreases corners.len() - i,
        {
            let corner = corners[i];
            match get_corner_score(&self.grid, corner) {
                Some(score) => {
                    assert(corner_score(tiles, corners@[i as int]) == Some(score as int));
                    if score < lowest {
                        lowest = score;
                    }
                    if score > highest {
                        highest = score;
                    }
                },
                None => {},
            }
            i += 1;
        }
        let added = prob(*fill);
        let min_corner_score = lowest + added;
        let max_corner_score = highest + added;
        if min_corner_score as i64 >= self.min_corner_score as i64 && max_corner_score as i64
            <= self.max_corner_score as i64 {
            match self.grid.tiles.get_mut(coord) {
                Some(tile) => {
                    tile.number = Some(*fill);
                    Ok(())
                },
                None => Err(()),
            }
        } else {
            Err(())
        }
    }

    fn remove(&mut self, coord: &Tile) {
        match self.grid.tiles.get_mut(coord) {
            Some(tile) => {
                tile.number = None;
            },
            None => {},
        }
        proof {
            assert forall|before: NumberBoard, fill: i32|
                Self::valid(before) && Self::vacant(before, *coord) && Self::legal(
                    before,
                    *coord,
                    fill,
                ) && old(self).model() == #[trigger] Self::placed(
                    before,
                    *coord,
                    fill,
                ) implies self.model() == before by {
                assert(self.grid.tiles@ =~= before.tiles);
            }
        }
    }
}


/// Where tokens were placed one after the other on tiles of the board, each
/// of these tiles carries the token that was placed there, and the board is
/// otherwise as it was.
pub proof fn lemma_filled_numbers(
    model: NumberBoard,
    coords: Seq<Tile>,
    fills: Seq<i32>,
    from: int,
    result: NumberBoard,
)
    requires
        0 <= from <= coords.len(),
        coords.len() == fills.len(),
        coords.no_duplicates(),
        forall|k: int| from <= k < coords.len() ==> model.tiles.contains_key(coords[k]),
        filled::<NumberSearch>(model, coords, fills, from) == Some(result),
    ensures
        result.edges == model.edges,
        result.corners == model.corners,
        result.min_corner_score == model.min_corner_score,
        result.max_corner_score == model.max_corner_score,
        result.tiles.dom() == model.tiles.dom(),
        forall|k: int|
            from <= k < coords.len() ==> result.tiles[coords[k]] == with_token(
                model.tiles[coords[k]],
                Some(fills[k]),
            ),
        forall|coord: Tile|
            model.tiles.contains_key(coord) && !(exists|k: int|
                from <= k < coords.len() && coords[k] == coord) ==> result.tiles[coord]
                == model.tiles[coord],
    decreases coords.len() - from,
{
    if from < coords.len() {
        let next = NumberSearch::placed(model, coords[from], fills[from]);
        lemma_filled_numbers(next, coords, fills, from + 1, result);
        assert(next.tiles.dom() =~= model.tiles.dom());
        assert forall|coord: Tile|
            model.tiles.contains_key(coord) && !(exists|k: int|
                from <= k < coords.len() && coords[k] == coord) implies result.tiles[coord]
            == model.tiles[coord] by {
            if exists|k: int| from + 1 <= k < coords.len() && coords[k] == coord {
                let k = choose|k: int| from + 1 <= k < coords.len() && coords[k] == coord;
                assert(from <= k < coords.len() && coords[k] == coord);
            }
            assert(coords[from] != coord);
        }
        assert(!(exists|k: int| from + 1 <= k < coords.len() && coords[k] == coords[from])) by {
            if exists|k: int| from + 1 <= k < coords.len() && coords[k] == coords[from] {
                let k = choose|k: int| from + 1 <= k < coords.len() && coords[k] == coords[from];
                assert(coords[k] == coords[from]);
            }
        }
    }
}

} // verus!
