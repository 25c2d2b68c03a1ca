//! The board of the tile generator: what may be placed where, and what
//! holds of every board that comes of legal placements.

use vstd::prelude::*;
use crate::generation::{CornerData, EdgeData, TileData};
use crate::hex_coordinates::{Corner, Edge, HexCoord, Tile};
use crate::hex_laws::{lemma_tile_adjacency_symmetric, lemma_tile_neighbors_adjacent};
use crate::hexgrid::{lemma_present_contains, present};
use crate::search::{filled, SearchState};
use crate::types::TileType;
use crate::GameGrid;

verus! {

/// A tile of the given terrain as the tile generator places it: without a
/// number, without the thief, face down.
pub open spec fn fresh_tile(kind: TileType) -> TileData {
    TileData { tile_type: kind, number: None, thief: false, faceup: false }
}

/// Whether the board has an ocean tile at `coord`.
pub open spec fn is_ocean(tiles: Map<Tile, TileData>, coord: Tile) -> bool {
    tiles.contains_key(coord) && tiles[coord].tile_type == TileType::Ocean
}

/// Whether the board has an ocean tile.
pub open spec fn has_ocean(tiles: Map<Tile, TileData>) -> bool {
    exists|coord: Tile| is_ocean(tiles, coord)
}

/// Whether the board has a tile of terrain `kind` adjacent to `coord`.
pub open spec fn kind_beside(tiles: Map<Tile, TileData>, coord: Tile, kind: TileType) -> bool {
    exists|other: Tile|
        coord.adjacent(other) && #[trigger] tiles.contains_key(other) && tiles[other].tile_type
            == kind
}

/// No two adjacent tiles of the board have the same terrain, unless it is
/// ocean.
pub open spec fn no_adjacent_same(tiles: Map<Tile, TileData>) -> bool {
    forall|a: Tile, b: Tile|
        #[trigger] a.adjacent(b) && tiles.contains_key(a) && tiles.contains_key(b)
            && tiles[a].tile_type == tiles[b].tile_type ==> tiles[a].tile_type == TileType::Ocean
}

/// Every ocean tile of the board has an ocean tile beside it, unless it is
/// the only ocean tile.
pub open spec fn oceans_contiguous(tiles: Map<Tile, TileData>) -> bool {
    forall|coord: Tile| #[trigger]
        is_ocean(tiles, coord) ==> kind_beside(tiles, coord, TileType::Ocean) || forall|
            other: Tile,
        | #[trigger] is_ocean(tiles, other) ==> other == coord
}

/// The board of the tile generator as a mathematical value.
#[verifier::ext_equal]
pub struct TileBoard {
    pub tiles: Map<Tile, TileData>,
    pub edges: Map<Edge, EdgeData>,
    pub corners: Map<Corner, CornerData>,
    pub has_started_ocean: bool,
    pub avoid_adjacent: bool,
}

/// The board that the tile generator fills, with what it keeps track of.
pub struct TileSearch {
    pub grid: GameGrid,
    /// Whether an ocean tile has been placed.
    pub has_started_ocean: bool,
    /// Whether adjacent tiles must differ in terrain.
    pub avoid_adjacent: bool,
}

/// Whether a tile around `coord` has the terrain `kind`.
fn has_neighbor_of_kind(grid: &GameGrid, coord: &Tile, kind: &TileType) -> (found: bool)
    requires
        coord.interior(),
    ensures
        found == kind_beside(grid.tiles@, *coord, *kind),
{
    let around = grid.get_tile_neighbors(coord);
    let ghost tiles = grid.tiles@;
    let ghost coords = present(tiles, coord.tile_neighbors());
    let mut i: usize = 0;
    while i < around.len()
        invariant
            0 <= i <= around.len(),
            tiles == grid.tiles@,
            coords == present(tiles, coord.tile_neighbors()),
            coord.interior(),
            around@.len() == coords.len(),
            forall|j: int|
                0 <= j < around@.len() ==> (#[trigger] around@[j]).0 == coords[j] && *around@[j].1
                    == tiles[around@[j].0],
            forall|j: int| 0 <= j < i ==> (#[trigger] around@[j]).1.tile_type != *kind,
        decreases around.len() - i,
    {
        if around[i].1.tile_type == *kind {
            proof {
                let other = around@[i as int].0;
                assert(coords[i as int] == other);
                assert(coords.contains(other));
                lemma_present_contains(tiles, coord.tile_neighbors(), other);
                lemma_tile_neighbors_adjacent(*coord, other);
                assert(tiles.contains_key(other));
            }
            return true;
        }
        i += 1;
    }
    proof {
        if kind_beside(tiles, *coord, *kind) {
            let other = choose|other: Tile|
                coord.adjacent(other) && #[trigger] tiles.contains_key(other)
                    && tiles[other].tile_type == *kind;
            lemma_tile_neighbors_adjacent(*coord, other);
            lemma_present_contains(tiles, coord.tile_neighbors(), other);
            let j = choose|j: int| 0 <= j < coords.len() && coords[j] == other;
            assert(around@[j].0 == other);
            assert(around@[j].1.tile_type == *kind);
        }
    }
    false
}

/// Whether the grid holds an ocean tile.
fn any_ocean(grid: &GameGrid) -> (found: bool)
    ensures
        found == has_ocean(grid.tiles@),
{
    let coords = grid.tiles.keys();
    let mut i: usize = 0;
    while i < coords.len()
        invariant
            0 <= i <= coords.len(),
            coords@.to_set() == grid.tiles@.dom(),
            forall|j: int| 0 <= j < i ==> !is_ocean(grid.tiles@, #[trigger] coords@[j]),
        decreases coords.len() - i,
    {
        match grid.tiles.get(&coords[i]) {
            Some(data) => {
                if data.tile_type == TileType::Ocean {
                    assert(is_ocean(grid.tiles@, coords@[i as int]));
                    return true;
                }
            },
            None => {},
        }
        i += 1;
    }
    proof {
        if has_ocean(grid.tiles@) {
            let coord = choose|coord: Tile| is_ocean(grid.tiles@, coord);
            assert(coords@.to_set().contains(coord));
            let j = choose|j: int| 0 <= j < coords.len() && coords@[j] == coord;
            assert(!is_ocean(grid.tiles@, coords@[j]));
        }
    }
    false
}

impl SearchState for TileSearch {
    type Coord = Tile;

    type Fill = TileType;

    type Model = TileBoard;

    open spec fn model(&self) -> TileBoard {
        TileBoard {
            tiles: self.grid.tiles@,
            edges: self.grid.edges@,
            corners: self.grid.corners@,
            has_started_ocean: self.has_started_ocean,
            avoid_adjacent: self.avoid_adjacent,
        }
    }

    /// The ocean flag is set exactly when there is an ocean tile, every tile
    /// is as it was placed, and the rules on adjacent terrain and on ocean
    /// hold of what has been placed.
    open spec fn valid(model: TileBoard) -> bool {
        &&& model.has_started_ocean == has_ocean(model.tiles)
        &&& forall|coord: Tile| #[trigger]
            model.tiles.contains_key(coord) ==> model.tiles[coord] == fresh_tile(
                model.tiles[coord].tile_type,
            )
        &&& model.avoid_adjacent ==> no_adjacent_same(model.tiles)
        &&& oceans_contiguous(model.tiles)
    }

    open spec fn vacant(model: TileBoard, coord: Tile) -> bool {
        !model.tiles.contains_key(coord) && coord.interior()
    }

    /// Ocean may be placed first of all ocean or beside ocean. Any other
    /// terrain may be placed where no tile beside it has the same terrain, or
    /// anywhere if adjacent tiles need not differ.
    open spec fn legal(model: TileBoard, coord: Tile, fill: TileType) -> bool {
        if fill == TileType::Ocean {
            !model.has_started_ocean || kind_beside(model.tiles, coord, fill)
        } else {
            !model.avoid_adjacent || !kind_beside(model.tiles, coord, fill)
        }
    }

    open spec fn placed(model: TileBoard, coord: Tile, fill: TileType) -> TileBoard {
        TileBoard {
            tiles: model.tiles.insert(coord, fresh_tile(fill)),
            has_started_ocean: model.has_started_ocean || fill == TileType::Ocean,
            ..model
        }
    }

    proof fn lemma_placed(model: TileBoard, coord: Tile, fill: TileType, other: Tile) {
        let after = Self::placed(model, coord, fill);
        let tiles = model.tiles;
        let next = after.tiles;
        assert(!coord.adjacent(coord));
        assert forall|at: Tile|
            is_ocean(next, at) == (if at == coord {
                fill == TileType::Ocean
            } else {
                is_ocean(tiles, at)
            }) by {}
        assert forall|at: Tile, kind: TileType| kind_beside(tiles, at, kind) implies kind_beside(
            next,
            at,
            kind,
        ) by {
            let beside = choose|beside: Tile|
                at.adjacent(beside) && #[trigger] tiles.contains_key(beside)
                    && tiles[beside].tile_type == kind;
            assert(next.contains_key(beside));
        }
        assert(after.has_started_ocean == has_ocean(next)) by {
            if has_ocean(tiles) {
                let at = choose|at: Tile| is_ocean(tiles, at);
                assert(is_ocean(next, at));
            }
            if fill == TileType::Ocean {
                assert(is_ocean(next, coord));
            }
            if has_ocean(next) {
                let at = choose|at: Tile| is_ocean(next, at);
                if at != coord {
                    assert(is_ocean(tiles, at));
                }
            }
        }
        if model.avoid_adjacent {
            assert forall|a: Tile, b: Tile|
                #[trigger] a.adjacent(b) && next.contains_key(a) && next.contains_key(b)
                    && next[a].tile_type == next[b].tile_type implies next[a].tile_type
                == TileType::Ocean by {
                lemma_tile_adjacency_symmetric(a, b);
                if a == coord && fill != TileType::Ocean {
                    assert(tiles.contains_key(b));
                    assert(kind_beside(tiles, coord, fill));
                } else if b == coord && fill != TileType::Ocean {
                    assert(tiles.contains_key(a));
                    assert(kind_beside(tiles, coord, fill));
                } else if a != coord && b != coord {
                    assert(tiles.contains_key(a) && tiles.contains_key(b));
                }
            }
        }
        assert forall|at: Tile| #[trigger] is_ocean(next, at) implies kind_beside(
            next,
            at,
            TileType::Ocean,
        ) || forall|only: Tile| #[trigger] is_ocean(next, only) ==> only == at by {
            if fill != TileType::Ocean {
                assert(is_ocean(tiles, at));
                if !kind_beside(tiles, at, TileType::Ocean) {
                    assert forall|only: Tile| #[trigger] is_ocean(next, only) implies only
                        == at by {
                        assert(is_ocean(tiles, only));
                    }
                }
            } else if !model.has_started_ocean {
                assert forall|only: Tile| #[trigger] is_ocean(next, only) implies only == at by {
                    if only != coord {
                        assert(is_ocean(tiles, only));
                    }
                    if at != coord {
                        assert(is_ocean(tiles, at));
                    }
                }
            } else {
                let beside = choose|beside: Tile|
                    coord.adjacent(beside) && #[trigger] tiles.contains_key(beside)
                        && tiles[beside].tile_type == TileType::Ocean;
                assert(is_ocean(tiles, beside));
                assert(next.contains_key(beside));
                if at == coord {
                    assert(kind_beside(next, at, TileType::Ocean));
                } else {
                    assert(is_ocean(tiles, at));
                    if !kind_beside(tiles, at, TileType::Ocean) {
                        assert(beside == at);
                        lemma_tile_adjacency_symmetric(coord, at);
                        assert(next.contains_key(coord));
                        assert(kind_beside(next, at, TileType::Ocean));
                    }
                }
            }
        }
    }

    fn same_fill(a: &TileType, b: &TileType) -> (same: bool) {
        *a == *b
    }

    fn place(&mut self, coord: &Tile, fill: &TileType) -> (result: Result<(), ()>) {
        let same_beside = has_neighbor_of_kind(&self.grid, coord, fill);
        let placement_good = match fill {
            TileType::Ocean => !self.has_started_ocean || same_beside,
            _ => !self.avoid_adjacent || !same_beside,
        };
        if placement_good {
            self.grid.tiles.insert(
                *coord,
                TileData { tile_type: *fill, number: None, thief: false, faceup: false },
            );
            if *fill == TileType::Ocean {
                self.has_started_ocean = true;
            }
            Ok(())
        } else {
            Err(())
        }
    }

    fn remove(&mut self, coord: &Tile) {
        self.grid.tiles.remove(coord);
        if !any_ocean(&self.grid) {
            self.has_started_ocean = false;
        }
        proof {
            assert forall|before: TileBoard, fill: TileType|
                Self::valid(before) && Self::vacant(before, *coord) && Self::legal(
                    before,
                    *coord,
                    fill,
                ) && old(self).model() == #[trigger] Self::placed(
                    before,
                    *coord,
                    fill,
                ) implies self.model() == before by {
                assert(self.grid.tiles@ =~= before.tiles);
            }
        }
    }
}

/// Where placements were made one after the other on vacant coordinates, the
/// board holds at each of them the tile that was placed there, and is
/// otherwise as it was.
pub proof fn lemma_filled_tiles(
    model: TileBoard,
    coords: Seq<Tile>,
    fills: Seq<TileType>,
    from: int,
    result: TileBoard,
)
    requires
        0 <= from <= coords.len(),
        coords.len() == fills.len(),
        coords.no_duplicates(),
        forall|k: int| from <= k < coords.len() ==> !model.tiles.contains_key(coords[k]),
        filled::<TileSearch>(model, coords, fills, from) == Some(result),
    ensures
        result.edges == model.edges,
        result.corners == model.corners,
        result.avoid_adjacent == model.avoid_adjacent,
        forall|coord: Tile|
            result.tiles.contains_key(coord) <==> model.tiles.contains_key(coord) || exists|k: int|
                from <= k < coords.len() && coords[k] == coord,
        forall|coord: Tile|
            model.tiles.contains_key(coord) ==> result.tiles[coord] == model.tiles[coord],
        forall|k: int| from <= k < coords.len() ==> result.tiles[coords[k]] == fresh_tile(fills[k]),
    decreases coords.len() - from,
{
    if from < coords.len() {
        let next = TileSearch::placed(model, coords[from], fills[from]);
        lemma_filled_tiles(next, coords, fills, from + 1, result);
        assert forall|coord: Tile|
            result.tiles.contains_key(coord) <==> model.tiles.contains_key(coord) || exists|k: int|
                from <= k < coords.len() && coords[k] == coord by {
            if next.tiles.contains_key(coord) && !model.tiles.contains_key(coord) {
                assert(coords[from] == coord);
            }
            if exists|k: int| from + 1 <= k < coords.len() && coords[k] == coord {
                let k = choose|k: int| from + 1 <= k < coords.len() && coords[k] == coord;
                assert(from <= k < coords.len() && coords[k] == coord);
            }
            if exists|k: int| from <= k < coords.len() && coords[k] == coord {
                let k = choose|k: int| from <= k < coords.len() && coords[k] == coord;
                if k > from {
                    assert(from + 1 <= k < coords.len() && coords[k] == coord);
                }
            }
        }
    }
}

} // verus!
