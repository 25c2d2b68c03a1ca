//! The generators that fill a board: first terrain on every tile of the
//! footprint, then a number token on every resource tile.
//!
//! Both run the same backtracking search over a shuffled supply, and start
//! over with a new shuffle when an attempt leads nowhere.

use vstd::prelude::*;
use rand::rngs::StdRng;
use rand::seq::SliceRandom;
use crate::configuration::MapGenerationSettings;
use crate::hex_coordinates::{within_margin, Corner, Edge, HexCoord, Tile};
use crate::hexgrid::{HexGrid, TileMap};
use crate::number_search::{
    corners_balanced, lemma_filled_numbers, numbered_around, with_token, NumberBoard,
    NumberSearch,
};
use crate::search::{filled, rearranged, recurse, search, Outcome, SearchState};
use crate::tile_search::{
    fresh_tile, has_ocean, is_ocean, kind_beside, lemma_filled_tiles, no_adjacent_same,
    oceans_contiguous, TileBoard, TileSearch,
};
use crate::types::{Resource, TileType};
use crate::GameGrid;

verus! {

/// What the board holds for a tile.
pub type TileData = crate::types::Tile;

/// What the board holds for an edge.
pub type EdgeData = crate::types::Edge;

/// What the board holds for a corner.
pub type CornerData = crate::types::Corner;

/// Why a generator gave no board.
#[derive(Debug, Copy, Clone, Eq, PartialEq, Structural)]
pub enum GenerationError {
    /// The settings do not describe a board that could be generated. Nothing
    /// was tried.
    Configuration,
    /// No attempt found a board.
    Exhausted,
}

/// How many attempts a generator makes before it gives up.
pub const MAX_TRIES: u32 = 100;

/// How many candidates one attempt may try.
pub const MAX_ITERATIONS: u32 = 1000;

/// The random number generator of the `rand` crate that the generators draw
/// from.
#[verifier::external_type_specification]
#[verifier::external_body]
pub struct ExStdRng(StdRng);

/// `SliceRandom::shuffle` of the `rand` crate puts the items in a random
/// order by exchanging them in pairs: afterwards the same items are there,
/// each as often as before.
#[verifier::external_body]
fn shuffle<T>(items: &mut Vec<T>, rng: &mut StdRng)
    ensures
        final(items)@.to_multiset() == old(items)@.to_multiset(),
{
    items.shuffle(rng);
}

/// How many tiles of terrain `kind` the settings ask for.
pub open spec fn configured_count(config: &MapGenerationSettings, kind: TileType) -> nat {
    match kind {
        TileType::Resource(Resource::Wheat) => config.wheat_count as nat,
        TileType::Resource(Resource::Wood) => config.wood_count as nat,
        TileType::Resource(Resource::Sheep) => config.sheep_count as nat,
        TileType::Resource(Resource::Stone) => config.stone_count as nat,
        TileType::Resource(Resource::Clay) => config.clay_count as nat,
        TileType::Resource(Resource::Gold) => config.gold_count as nat,
        TileType::Desert => config.desert_count as nat,
        TileType::Ocean => config.ocean_count as nat,
    }
}

/// How many tiles the settings ask for in all.
pub open spec fn total_count(config: &MapGenerationSettings) -> nat {
    (config.wheat_count + config.wood_count + config.sheep_count + config.stone_count
        + config.clay_count + config.gold_count + config.desert_count + config.ocean_count) as nat
}

/// The settings describe a board that the tile generator can try to fill:
/// there is one tile for each coordinate of the footprint, no coordinate
/// occurs twice, and each has representable neighbors.
pub open spec fn tile_settings_valid(config: &MapGenerationSettings) -> bool {
    &&& total_count(config) == config.coords@.len()
    &&& config.coords@.no_duplicates()
    &&& forall|i: int| 0 <= i < config.coords@.len() ==> (#[trigger] config.coords@[i]).interior()
}

/// The terrain on the tiles at `coords`, in the order of `coords`.
pub open spec fn terrains_at(tiles: Map<Tile, TileData>, coords: Seq<Tile>) -> Seq<TileType> {
    Seq::new(coords.len(), |i: int| tiles[coords[i]].tile_type)
}

/// The terrain is on the board as the settings ask for it: the footprint is
/// filled and nothing else, each terrain is there as often as the settings
/// say, adjacent tiles differ where the settings ask for it, and no ocean
/// tile lies apart from all the others.
pub open spec fn terrain_placed(config: &MapGenerationSettings, tiles: Map<Tile, TileData>) -> bool {
    &&& tiles.dom() == config.coords@.to_set()
    &&& forall|kind: TileType|
        terrains_at(tiles, config.coords@).to_multiset().count(kind) == configured_count(
            config,
            kind,
        )
    &&& config.avoid_adjacent ==> no_adjacent_same(tiles)
    &&& oceans_contiguous(tiles)
}

/// What holds of the tiles of a board that the tile generator returns: the
/// terrain is on it as the settings ask for it, and every tile is as the
/// generator places it.
pub open spec fn tiles_generated(config: &MapGenerationSettings, tiles: Map<Tile, TileData>) -> bool {
    &&& terrain_placed(config, tiles)
    &&& forall|coord: Tile| #[trigger]
        tiles.contains_key(coord) ==> tiles[coord] == fresh_tile(tiles[coord].tile_type)
}

/// Tokens do not matter to the terrain: it is placed as the settings ask
/// for it on a board exactly when it is so on the board without its tokens.
pub proof fn lemma_terrain_without_tokens(config: &MapGenerationSettings, tiles: Map<Tile, TileData>)
    ensures
        terrain_placed(config, tiles) == terrain_placed(config, without_tokens(tiles)),
{
    let bare = without_tokens(tiles);
    assert(bare.dom() =~= tiles.dom());
    assert forall|coord: Tile| is_ocean(bare, coord) == is_ocean(tiles, coord) by {}
    assert forall|coord: Tile, kind: TileType|
        kind_beside(bare, coord, kind) == kind_beside(tiles, coord, kind) by {
        if kind_beside(bare, coord, kind) {
            let other = choose|other: Tile|
                coord.adjacent(other) && #[trigger] bare.contains_key(other)
                    && bare[other].tile_type == kind;
            assert(tiles.contains_key(other));
        }
        if kind_beside(tiles, coord, kind) {
            let other = choose|other: Tile|
                coord.adjacent(other) && #[trigger] tiles.contains_key(other)
                    && tiles[other].tile_type == kind;
            assert(bare.contains_key(other));
        }
    }
    if tiles.dom() == config.coords@.to_set() {
        assert(terrains_at(bare, config.coords@) =~= terrains_at(tiles, config.coords@)) by {
            assert forall|i: int| 0 <= i < config.coords@.len() implies tiles.contains_key(
                #[trigger] config.coords@[i],
            ) by {
                assert(config.coords@.to_set().contains(config.coords@[i]));
            }
        }
    }
    assert(no_adjacent_same(bare) == no_adjacent_same(tiles)) by {
        if no_adjacent_same(tiles) {
            assert forall|a: Tile, b: Tile|
                #[trigger] a.adjacent(b) && bare.contains_key(a) && bare.contains_key(b)
                    && bare[a].tile_type == bare[b].tile_type implies bare[a].tile_type
                == TileType::Ocean by {
                assert(tiles.contains_key(a) && tiles.contains_key(b));
            }
        }
        if no_adjacent_same(bare) {
            assert forall|a: Tile, b: Tile|
                #[trigger] a.adjacent(b) && tiles.contains_key(a) && tiles.contains_key(b)
                    && tiles[a].tile_type == tiles[b].tile_type implies tiles[a].tile_type
                == TileType::Ocean by {
                assert(bare.contains_key(a) && bare.contains_key(b));
            }
        }
    }
    assert(oceans_contiguous(bare) == oceans_contiguous(tiles)) by {
        if oceans_contiguous(tiles) {
            assert forall|coord: Tile| #[trigger] is_ocean(bare, coord) implies kind_beside(
                bare,
                coord,
                TileType::Ocean,
            ) || forall|other: Tile| #[trigger] is_ocean(bare, other) ==> other == coord by {
                assert(is_ocean(tiles, coord));
                if !kind_beside(tiles, coord, TileType::Ocean) {
                    assert forall|other: Tile| #[trigger] is_ocean(bare, other) implies other
                        == coord by {
                        assert(is_ocean(tiles, other));
                    }
                }
            }
        }
        if oceans_contiguous(bare) {
            assert forall|coord: Tile| #[trigger] is_ocean(tiles, coord) implies kind_beside(
                tiles,
                coord,
                TileType::Ocean,
            ) || forall|other: Tile| #[trigger] is_ocean(tiles, other) ==> other == coord by {
                assert(is_ocean(bare, coord));
                if !kind_beside(bare, coord, TileType::Ocean) {
                    assert forall|other: Tile| #[trigger] is_ocean(tiles, other) implies other
                        == coord by {
                        assert(is_ocean(bare, other));
                    }
                }
            }
        }
    }
}

/// Whether the settings are such that the tile generator can start.
pub fn validate_tile_settings(config: &MapGenerationSettings) -> (valid: bool)
    ensures
        valid == tile_settings_valid(config),
{
    let total: u64 = config.wheat_count as u64 + config.wood_count as u64
        + config.sheep_count as u64 + config.stone_count as u64 + config.clay_count as u64
        + config.gold_count as u64 + config.desert_count as u64 + config.ocean_count as u64;
    if total != config.coords.len() as u64 {
        return false;
    }
    let mut seen: TileMap<bool> = TileMap::new();
    let mut i: usize = 0;
    while i < config.coords.len()
        invariant
            0 <= i <= config.coords.len(),
            seen@.dom() == config.coords@.take(i as int).to_set(),
            config.coords@.take(i as int).no_duplicates(),
            forall|j: int| 0 <= j < i ==> (#[trigger] config.coords@[j]).interior(),
        decreases config.coords.len() - i,
    {
        let coord = config.coords[i];
        let inside = i32::MIN < coord.x && coord.x < i32::MAX && i32::MIN < coord.y && coord.y
            < i32::MAX;
        if !inside {
            assert(!config.coords@[i as int].interior());
            return false;
        }
        if seen.contains_key(&coord) {
            proof {
                let earlier = config.coords@.take(i as int);
                assert(earlier.to_set().contains(coord));
                let j = choose|j: int| 0 <= j < earlier.len() && earlier[j] == coord;
                assert(config.coords@[j] == config.coords@[i as int]);
            }
            return false;
        }
        seen.insert(coord, true);
        proof {
            let earlier = config.coords@.take(i as int);
            let upto = config.coords@.take(i + 1);
            assert(upto =~= earlier.push(coord));
            assert(upto.to_set() =~= earlier.to_set().insert(coord)) by {
                assert forall|at: Tile| upto.to_set().contains(at) implies earlier.to_set().insert(
                    coord,
                ).contains(at) by {
                    let j = choose|j: int| 0 <= j < upto.len() && upto[j] == at;
                    if j < i {
                        assert(earlier[j] == at);
                    }
                }
                assert forall|at: Tile|
                    earlier.to_set().insert(coord).contains(at) implies upto.to_set().contains(
                    at,
                ) by {
                    if at == coord {
                        assert(upto[i as int] == at);
                    } else {
                        let j = choose|j: int| 0 <= j < earlier.len() && earlier[j] == at;
                        assert(upto[j] == at);
                    }
                }
            }
            assert(upto.no_duplicates()) by {
                assert forall|a: int, b: int|
                    0 <= a < upto.len() && 0 <= b < upto.len() && a != b implies upto[a]
                    != upto[b] by {
                    if a < i && b < i {
                        assert(earlier[a] != earlier[b]);
                    } else if a < i {
                        assert(earlier[a] == upto[a]);
                        assert(earlier.to_set().contains(upto[a]));
                    } else if b < i {
                        assert(earlier[b] == upto[b]);
                        assert(earlier.to_set().contains(upto[b]));
                    }
                }
            }
        }
        i += 1;
    }
    assert(config.coords@.take(config.coords@.len() as int) =~= config.coords@);
    true
}

/// `count` tiles of terrain `kind`.
pub open spec fn repeated(kind: TileType, count: nat) -> Seq<TileType> {
    Seq::new(count, |i: int| kind)
}

/// The supply of terrain that the settings ask for, kind by kind: wheat,
/// wood, sheep, stone, clay, gold, desert, ocean.
pub open spec fn supply_of(config: &MapGenerationSettings) -> Seq<TileType> {
    repeated(TileType::Resource(Resource::Wheat), config.wheat_count as nat) + repeated(
        TileType::Resource(Resource::Wood),
        config.wood_count as nat,
    ) + repeated(TileType::Resource(Resource::Sheep), config.sheep_count as nat) + repeated(
        TileType::Resource(Resource::Stone),
        config.stone_count as nat,
    ) + repeated(TileType::Resource(Resource::Clay), config.clay_count as nat) + repeated(
        TileType::Resource(Resource::Gold),
        config.gold_count as nat,
    ) + repeated(TileType::Desert, config.desert_count as nat) + repeated(
        TileType::Ocean,
        config.ocean_count as nat,
    )
}

/// Adds `count` tiles of terrain `kind` to the supply.
fn push_terrain(supply: &mut Vec<TileType>, kind: TileType, count: u32)
    ensures
        final(supply)@ == old(supply)@ + repeated(kind, count as nat),
        forall|other: TileType|
            final(supply)@.to_multiset().count(other) == old(supply)@.to_multiset().count(other)
                + if other == kind {
                count as nat
            } else {
                0
            },
{
    let mut i: u32 = 0;
    while i < count
        invariant
            0 <= i <= count,
            supply@ == old(supply)@ + repeated(kind, i as nat),
            forall|other: TileType|
                supply@.to_multiset().count(other) == old(supply)@.to_multiset().count(other)
                    + if other == kind {
                    i as nat
                } else {
                    0
                },
        decreases count - i,
    {
        proof {
            vstd::seq_lib::to_multiset_build(supply@, kind);
        }
        supply.push(kind);
        assert(supply@ =~= old(supply)@ + repeated(kind, (i + 1) as nat));
        i += 1;
    }
}

/// The supply of terrain that the settings ask for: of each terrain as many
/// tiles as the settings say.
pub fn terrain_supply(config: &MapGenerationSettings) -> (supply: Vec<TileType>)
    ensures
        supply@ == supply_of(config),
        supply@.len() == total_count(config),
        forall|kind: TileType| supply@.to_multiset().count(kind) == configured_count(config, kind),
{
    let mut supply: Vec<TileType> = Vec::new();
    proof {
        assert forall|kind: TileType| supply@.to_multiset().count(kind) == 0 by {
            vstd::seq_lib::to_multiset_contains(supply@, kind);
        }
    }
    push_terrain(&mut supply, TileType::Resource(Resource::Wheat), config.wheat_count);
    push_terrain(&mut supply, TileType::Resource(Resource::Wood), config.wood_count);
    push_terrain(&mut supply, TileType::Resource(Resource::Sheep), config.sheep_count);
    push_terrain(&mut supply, TileType::Resource(Resource::Stone), config.stone_count);
    push_terrain(&mut supply, TileType::Resource(Resource::Clay), config.clay_count);
    push_terrain(&mut supply, TileType::Resource(Resource::Gold), config.gold_count);
    push_terrain(&mut supply, TileType::Desert, config.desert_count);
    push_terrain(&mut supply, TileType::Ocean, config.ocean_count);
    assert(supply@ =~= supply_of(config));
    supply
}

/// The board on which the tile generator starts: nothing on it.
pub open spec fn empty_tile_board(avoid_adjacent: bool) -> TileBoard {
    TileBoard {
        tiles: Map::empty(),
        edges: Map::empty(),
        corners: Map::empty(),
        has_started_ocean: false,
        avoid_adjacent,
    }
}

/// How one attempt of the tile generator ends: the search on the empty board
/// for a placement of the supply, as it stands in `order`, on the footprint.
pub open spec fn tile_attempt(config: &MapGenerationSettings, order: Seq<TileType>) -> Outcome<
    TileBoard,
    TileType,
> {
    search::<TileSearch>(
        empty_tile_board(config.avoid_adjacent),
        config.coords@,
        order,
        0,
        0,
        Seq::empty(),
        MAX_ITERATIONS as nat,
    )
}

/// Each of `orders` is an order of `supply` with which the attempt of the
/// tile generator fails.
pub open spec fn tile_attempts_failed(
    config: &MapGenerationSettings,
    orders: Seq<Seq<TileType>>,
) -> bool {
    forall|i: int|
        0 <= i < orders.len() ==> rearranged(supply_of(config), #[trigger] orders[i], 0)
            && !tile_attempt(config, orders[i]).found
}

/// `tiles` are the tiles of a board that the tile generator found: the board
/// on which its search ended for some order of the supply. Such a board has
/// all that `tiles_generated` states.
pub open spec fn tiles_found(config: &MapGenerationSettings, tiles: Map<Tile, TileData>) -> bool {
    &&& exists|order: Seq<TileType>|
        rearranged(supply_of(config), order, 0) && (#[trigger] tile_attempt(config, order)).found
            && tile_attempt(config, order).model.tiles == tiles
    &&& tiles_generated(config, tiles)
}

/// The tile generator gave up: its search failed for `MAX_TRIES` orders of
/// the supply.
pub open spec fn tiles_exhausted(config: &MapGenerationSettings) -> bool {
    exists|orders: Seq<Seq<TileType>>|
        orders.len() == MAX_TRIES && #[trigger] tile_attempts_failed(config, orders)
}

/// Fills the footprint of the settings with terrain.
///
/// The supply of terrain is shuffled and placed by backtracking search, tile
/// by tile in the order of the footprint. An attempt that leads nowhere or
/// runs out of steps is followed by another with a new shuffle, up to
/// `MAX_TRIES` attempts in all.
///
/// Settings that do not describe a board are refused before anything is
/// tried. A board that is returned is the one that the search found for some
/// order of the supply; it has all that `tiles_generated` states, and its
/// edges and corners are empty. Failure means that the search failed for
/// `MAX_TRIES` orders of the supply. An empty footprint always gives the
/// empty board.
pub fn generate_tiles(config: &MapGenerationSettings, rng: &mut StdRng) -> (result: Result<
    GameGrid,
    GenerationError,
>)
    ensures
        match result {
            Ok(grid) => {
                &&& tile_settings_valid(config)
                &&& tiles_found(config, grid.tiles@)
                &&& grid.edges@ == Map::<Edge, EdgeData>::empty()
                &&& grid.corners@ == Map::<Corner, CornerData>::empty()
            },
            Err(GenerationError::Configuration) => !tile_settings_valid(config),
            Err(GenerationError::Exhausted) => {
                &&& tile_settings_valid(config)
                &&& tiles_exhausted(config)
                &&& config.coords@.len() > 0
            },
        },
{
    if !validate_tile_settings(config) {
        return Err(GenerationError::Configuration);
    }
    let mut supply = terrain_supply(config);
    let ghost wanted = supply@.to_multiset();
    proof {
        vstd::seq_lib::to_multiset_len(supply@);
    }
    shuffle(&mut supply, rng);
    let mut search = TileSearch {
        grid: HexGrid::new(),
        has_started_ocean: false,
        avoid_adjacent: config.avoid_adjacent,
    };
    let ghost empty = search.model();
    assert(empty == empty_tile_board(config.avoid_adjacent));
    assert(TileSearch::valid(empty)) by {
        assert(!has_ocean(empty.tiles));
    }
    let ghost failed: Seq<Seq<TileType>> = Seq::empty();
    let mut tries: u32 = 0;
    while tries < MAX_TRIES
        invariant
            tile_settings_valid(config),
            search.model() == empty,
            TileSearch::valid(empty),
            empty == empty_tile_board(config.avoid_adjacent),
            supply@.to_multiset() == wanted,
            wanted == supply_of(config).to_multiset(),
            forall|kind: TileType| wanted.count(kind) == configured_count(config, kind),
            wanted.len() == config.coords@.len(),
            supply_of(config).len() == config.coords@.len(),
            tries > 0 ==> config.coords@.len() > 0,
            tries <= MAX_TRIES,
            failed.len() == tries,
            tile_attempts_failed(config, failed),
        decreases MAX_TRIES - tries,
    {
        let mut iterations = MAX_ITERATIONS;
        let ghost order = supply@;
        proof {
            vstd::seq_lib::to_multiset_len(supply@);
            assert(order.take(0) =~= supply_of(config).take(0));
            assert(rearranged(supply_of(config), order, 0));
        }
        match recurse(&mut search, &config.coords, &mut supply, 0, &mut iterations) {
            Ok(()) => {
                proof {
                    let tiles = search.grid.tiles@;
                    let coords = config.coords@;
                    assert(tile_attempt(config, order).found);
                    assert(tile_attempt(config, order).model.tiles == tiles);
                    lemma_filled_tiles(empty, coords, supply@, 0, search.model());
                    assert(tiles.dom() =~= coords.to_set()) by {
                        assert forall|coord: Tile|
                            coords.to_set().contains(coord) implies tiles.dom().contains(
                            coord,
                        ) by {
                            let k = choose|k: int| 0 <= k < coords.len() && coords[k] == coord;
                            assert(0 <= k < coords.len() && coords[k] == coord);
                        }
                    }
                    assert(terrains_at(tiles, coords) =~= supply@);
                }
                return Ok(search.grid);
            },
            Err(()) => {
                proof {
                    assert(!tile_attempt(config, order).found);
                    failed = failed.push(order);
                }
                tries += 1;
                shuffle(&mut supply, rng);
                search.has_started_ocean = false;
                search.grid.tiles.clear();
            },
        }
    }
    assert(failed.len() == MAX_TRIES && tile_attempts_failed(config, failed));
    Err(GenerationError::Exhausted)
}


/// The coordinates of the resource tiles of the board.
pub open spec fn resource_tiles(tiles: Map<Tile, TileData>) -> Set<Tile> {
    Set::new(|coord: Tile| tiles.contains_key(coord) && tiles[coord].tile_type is Resource)
}

/// The board with every token taken off.
pub open spec fn without_tokens(tiles: Map<Tile, TileData>) -> Map<Tile, TileData> {
    Map::new(|coord: Tile| tiles.contains_key(coord), |coord: Tile| with_token(tiles[coord], None))
}

/// The settings and the board are such that the number generator can try to
/// place the tokens: the bounds leave room, there is one token for each
/// resource tile, and each resource tile is far enough from the ends of the
/// coordinate range for the tiles around its corners to be representable.
pub open spec fn number_settings_valid(
    config: &MapGenerationSettings,
    tiles: Map<Tile, TileData>,
) -> bool {
    &&& config.min_corner_score <= config.max_corner_score
    &&& resource_tiles(tiles).len() == config.numbers@.len()
    &&& forall|coord: Tile| #[trigger]
        resource_tiles(tiles).contains(coord) ==> within_margin(coord.x as int, coord.y as int, 2)
}

/// The tiles at `coords` carry the tokens of `order`, one after the other.
pub open spec fn tokens_placed(tiles: Map<Tile, TileData>, coords: Seq<Tile>, order: Seq<i32>) -> bool {
    &&& coords.len() == order.len()
    &&& forall|k: int| 0 <= k < coords.len() ==> (#[trigger] tiles[coords[k]]).number == Some(order[k])
}

/// What holds of the tiles of a board on which the number generator has
/// placed the tokens: the tiles are the same and differ from before in their
/// tokens only, the resource tiles and no others carry a token, these
/// tokens are those of the settings, each as often as there, and every
/// corner whose three tiles all carry a token has a score within the bounds.
pub open spec fn numbers_generated(
    config: &MapGenerationSettings,
    before: Map<Tile, TileData>,
    after: Map<Tile, TileData>,
) -> bool {
    &&& after.dom() == before.dom()
    &&& forall|coord: Tile| #[trigger]
        after.contains_key(coord) ==> after[coord] == with_token(before[coord], after[coord].number)
    &&& forall|coord: Tile| #[trigger]
        after.contains_key(coord) ==> (after[coord].number is Some
            <==> before[coord].tile_type is Resource)
    &&& exists|coords: Seq<Tile>, order: Seq<i32>|
        coords.no_duplicates() && coords.to_set() == resource_tiles(before)
            && order.to_multiset() == config.numbers@.to_multiset() && #[trigger] tokens_placed(
            after,
            coords,
            order,
        )
    &&& corners_balanced(after, config.min_corner_score as int, config.max_corner_score as int)
}

/// The coordinates of the resource tiles of the grid, each once, in no
/// particular order.
pub fn resource_coords(grid: &GameGrid) -> (coords: Vec<Tile>)
    ensures
        coords@.no_duplicates(),
        coords@.to_set() == resource_tiles(grid.tiles@),
{
    let all = grid.tiles.keys();
    let ghost tiles = grid.tiles@;
    let mut coords: Vec<Tile> = Vec::new();
    let mut i: usize = 0;
    while i < all.len()
        invariant
            0 <= i <= all.len(),
            tiles == grid.tiles@,
            all@.no_duplicates(),
            all@.to_set() == tiles.dom(),
            coords@.no_duplicates(),
            forall|j: int|
                0 <= j < coords.len() ==> resource_tiles(tiles).contains(#[trigger] coords@[j])
                    && exists|k: int| 0 <= k < i && all@[k] == coords@[j],
            forall|k: int|
                0 <= k < i && resource_tiles(tiles).contains(#[trigger] all@[k])
                    ==> coords@.contains(all@[k]),
        decreases all.len() - i,
    {
        let coord = all[i];
        let ghost before = coords@;
        match grid.tiles.get(&coord) {
            Some(data) => {
                match data.tile_type {
                    TileType::Resource(_) => {
                        coords.push(coord);
                        proof {
                            assert forall|j: int| 0 <= j < before.len() implies before[j]
                                != coord by {
                                let k = choose|k: int| 0 <= k < i && all@[k] == before[j];
                            }
                            assert(coords@[before.len() as int] == coord);
                            assert forall|k: int|
                                0 <= k < i + 1 && resource_tiles(tiles).contains(
                                    #[trigger] all@[k],
                                ) implies coords@.contains(all@[k]) by {
                                if k < i {
                                    let j = choose|j: int|
                                        0 <= j < before.len() && before[j] == all@[k];
                                    assert(coords@[j] == all@[k]);
                                }
                            }
                        }
                    },
                    _ => {},
                }
            },
            None => {},
        }
        i += 1;
    }
    proof {
        assert(coords@.to_set() =~= resource_tiles(tiles)) by {
            assert forall|coord: Tile|
                resource_tiles(tiles).contains(coord) implies coords@.to_set().contains(
                coord,
            ) by {
                assert(all@.to_set().contains(coord));
                let k = choose|k: int| 0 <= k < all.len() && all@[k] == coord;
                assert(coords@.contains(all@[k]));
            }
        }
    }
    coords
}

/// Takes the token off every tile of the grid.
pub fn clear_numbers(grid: &mut GameGrid)
    ensures
        final(grid).tiles@ == without_tokens(old(grid).tiles@),
        final(grid).edges@ == old(grid).edges@,
        final(grid).corners@ == old(grid).corners@,
{
    let all = grid.tiles.keys();
    let ghost before = grid.tiles@;
    let mut i: usize = 0;
    while i < all.len()
        invariant
            0 <= i <= all.len(),
            before == old(grid).tiles@,
            all@.no_duplicates(),
            all@.to_set() == before.dom(),
            grid.edges@ == old(grid).edges@,
            grid.corners@ == old(grid).corners@,
            grid.tiles@.dom() == before.dom(),
            forall|k: int|
                0 <= k < i ==> grid.tiles@[#[trigger] all@[k]] == with_token(before[all@[k]], None),
            forall|k: int| i <= k < all.len() ==> grid.tiles@[#[trigger] all@[k]] == before[all@[k]],
        decreases all.len() - i,
    {
        let coord = all[i];
        let ghost current = grid.tiles@;
        assert(all@.to_set().contains(all@[i as int]));
        match grid.tiles.get_mut(&coord) {
            Some(tile) => {
                tile.number = None;
            },
            None => {},
        }
        proof {
            assert(grid.tiles@ == current.insert(coord, with_token(before[coord], None)));
            assert(grid.tiles@.dom() =~= before.dom());
        }
        i += 1;
    }
    proof {
        assert(grid.tiles@ =~= without_tokens(before)) by {
            assert forall|coord: Tile| before.contains_key(coord) implies grid.tiles@[coord]
                == with_token(before[coord], None) by {
                assert(all@.to_set().contains(coord));
                let k = choose|k: int| 0 <= k < all.len() && all@[k] == coord;
                assert(grid.tiles@[all@[k]] == with_token(before[all@[k]], None));
            }
        }
    }
}

/// Whether the settings and the resource tiles of a board are such that the
/// number generator can start. `coords` lists the resource tiles.
fn validate_number_settings(config: &MapGenerationSettings, coords: &Vec<Tile>, Ghost(tiles): Ghost<
    Map<Tile, TileData>,
>) -> (valid: bool)
    requires
        coords@.no_duplicates(),
        coords@.to_set() == resource_tiles(tiles),
    ensures
        valid == number_settings_valid(config, tiles),
{
    proof {
        coords@.unique_seq_to_set();
    }
    if config.min_corner_score > config.max_corner_score {
        return false;
    }
    if coords.len() != config.numbers.len() {
        return false;
    }
    let mut i: usize = 0;
    while i < coords.len()
        invariant
            0 <= i <= coords.len(),
            coords@.to_set() == resource_tiles(tiles),
            forall|k: int|
                0 <= k < i ==> within_margin(
                    (#[trigger] coords@[k]).x as int,
                    coords@[k].y as int,
                    2,
                ),
        decreases coords.len() - i,
    {
        let coord = coords[i];
        let inside = i32::MIN + 1 < coord.x && coord.x < i32::MAX - 1 && i32::MIN + 1 < coord.y
            && coord.y < i32::MAX - 1;
        if !inside {
            assert(coords@.to_set().contains(coords@[i as int]));
            return false;
        }
        i += 1;
    }
    proof {
        assert forall|coord: Tile| #[trigger] resource_tiles(tiles).contains(coord) implies within_margin(
            coord.x as int,
            coord.y as int,
            2,
        ) by {
            assert(coords@.to_set().contains(coord));
            let k = choose|k: int| 0 <= k < coords.len() && coords@[k] == coord;
            assert(within_margin(coords@[k].x as int, coords@[k].y as int, 2));
        }
    }
    true
}

/// A copy of the tokens.
fn copy_numbers(numbers: &Vec<i32>) -> (copy: Vec<i32>)
    ensures
        copy@ == numbers@,
{
    let mut copy: Vec<i32> = Vec::new();
    let mut i: usize = 0;
    while i < numbers.len()
        invariant
            0 <= i <= numbers.len(),
            copy@ == numbers@.take(i as int),
        decreases numbers.len() - i,
    {
        copy.push(numbers[i]);
        assert(numbers@.take(i + 1) =~= numbers@.take(i as int).push(numbers@[i as int]));
        i += 1;
    }
    assert(numbers@.take(numbers@.len() as int) =~= numbers@);
    copy
}

/// How one attempt of the number generator ends: the search for a placement
/// of the tokens, as they stand in `order`, on the tiles at `coords` of a
/// board that carries no token yet.
pub open spec fn number_attempt(board: NumberBoard, coords: Seq<Tile>, order: Seq<i32>) -> Outcome<
    NumberBoard,
    i32,
> {
    search::<NumberSearch>(board, coords, order, 0, 0, Seq::empty(), MAX_ITERATIONS as nat)
}

/// The board on which the number generator starts: the tiles without their
/// tokens, and the bounds of the settings.
pub open spec fn cleared_board(
    config: &MapGenerationSettings,
    tiles: Map<Tile, TileData>,
    edges: Map<Edge, EdgeData>,
    corners: Map<Corner, CornerData>,
) -> NumberBoard {
    NumberBoard {
        tiles: without_tokens(tiles),
        edges,
        corners,
        min_corner_score: config.min_corner_score as int,
        max_corner_score: config.max_corner_score as int,
    }
}

/// `coords` lists the resource tiles of the board, each once.
pub open spec fn lists_resource_tiles(tiles: Map<Tile, TileData>, coords: Seq<Tile>) -> bool {
    coords.no_duplicates() && coords.to_set() == resource_tiles(tiles)
}

/// Each of `orders` is an order of the tokens of the settings with which the
/// attempt of the number generator fails.
pub open spec fn number_attempts_failed(
    config: &MapGenerationSettings,
    board: NumberBoard,
    coords: Seq<Tile>,
    orders: Seq<Seq<i32>>,
) -> bool {
    forall|i: int|
        0 <= i < orders.len() ==> rearranged(config.numbers@, #[trigger] orders[i], 0)
            && !number_attempt(board, coords, orders[i]).found
}

/// `after` are the tiles of a board on which the number generator found a
/// placement: the tiles on which its search ended for some order of the
/// resource tiles of `before` and some order of the tokens. Such tiles have
/// all that `numbers_generated` states.
pub open spec fn numbers_found(
    config: &MapGenerationSettings,
    before: Map<Tile, TileData>,
    edges: Map<Edge, EdgeData>,
    corners: Map<Corner, CornerData>,
    after: Map<Tile, TileData>,
) -> bool {
    let board = cleared_board(config, before, edges, corners);
    &&& exists|coords: Seq<Tile>, order: Seq<i32>|
        lists_resource_tiles(before, coords) && rearranged(config.numbers@, order, 0) && (
        #[trigger] number_attempt(board, coords, order)).found && number_attempt(
            board,
            coords,
            order,
        ).model.tiles == after
    &&& numbers_generated(config, before, after)
}

/// The number generator gave up: for some order of the resource tiles, its
/// search failed for `MAX_TRIES` orders of the tokens.
pub open spec fn numbers_exhausted(
    config: &MapGenerationSettings,
    before: Map<Tile, TileData>,
    edges: Map<Edge, EdgeData>,
    corners: Map<Corner, CornerData>,
) -> bool {
    let board = cleared_board(config, before, edges, corners);
    exists|coords: Seq<Tile>, orders: Seq<Seq<i32>>|
        lists_resource_tiles(before, coords) && orders.len() == MAX_TRIES
            && #[trigger] number_attempts_failed(config, board, coords, orders)
}

/// Places the number tokens of the settings on the resource tiles of the
/// grid.
///
/// Tokens that the grid carries already are taken off first. The resource
/// tiles are taken in a random order and the tokens are placed on them by
/// backtracking search. An attempt that leads nowhere or runs out of steps is
/// followed by another with the tokens shuffled, up to `MAX_TRIES` attempts in
/// all.
///
/// Settings that do not fit the grid are refused before anything is changed.
/// After a success the tiles are as the search left them for some order of
/// the resource tiles and some order of the tokens, and the grid has all that
/// `numbers_generated` states. Failure means that the search failed for
/// `MAX_TRIES` orders of the tokens; the grid then carries no token. Where
/// there is no resource tile, there is nothing to place and nothing to fail.
pub fn generate_numbers(config: &MapGenerationSettings, grid: &mut GameGrid, rng: &mut StdRng) -> (result:
    Result<(), GenerationError>)
    ensures
        final(grid).edges@ == old(grid).edges@,
        final(grid).corners@ == old(grid).corners@,
        match result {
            Ok(()) => {
                &&& number_settings_valid(config, old(grid).tiles@)
                &&& numbers_found(
                    config,
                    old(grid).tiles@,
                    old(grid).edges@,
                    old(grid).corners@,
                    final(grid).tiles@,
                )
            },
            Err(GenerationError::Configuration) => {
                &&& !number_settings_valid(config, old(grid).tiles@)
                &&& final(grid).tiles@ == old(grid).tiles@
            },
            Err(GenerationError::Exhausted) => {
                &&& number_settings_valid(config, old(grid).tiles@)
                &&& numbers_exhausted(
                    config,
                    old(grid).tiles@,
                    old(grid).edges@,
                    old(grid).corners@,
                )
                &&& final(grid).tiles@ == without_tokens(old(grid).tiles@)
                &&& config.numbers@.len() > 0
            },
        },
{
    let ghost before = grid.tiles@;
    let mut coords = resource_coords(grid);
    if !validate_number_settings(config, &coords, Ghost(before)) {
        return Err(GenerationError::Configuration);
    }
    clear_numbers(grid);
    let ghost cleared = grid.tiles@;
    let ghost listed = coords@;
    shuffle(&mut coords, rng);
    let mut numbers = copy_numbers(&config.numbers);
    let mut search = NumberSearch {
        grid: HexGrid::new(),
        min_corner_score: config.min_corner_score,
        max_corner_score: config.max_corner_score,
    };
    std::mem::swap(grid, &mut search.grid);
    let ghost start = search.model();
    proof {
        listed.unique_seq_to_set();
        listed.lemma_multiset_has_no_duplicates();
        coords@.lemma_multiset_has_no_duplicates_conv();
        vstd::seq_lib::to_multiset_len(listed);
        vstd::seq_lib::to_multiset_len(coords@);
        assert forall|k: int| 0 <= k < coords.len() implies NumberSearch::vacant(
            start,
            #[trigger] coords@[k],
        ) by {
            vstd::seq_lib::to_multiset_contains(coords@, coords@[k]);
            vstd::seq_lib::to_multiset_contains(listed, coords@[k]);
            assert(coords@.contains(coords@[k]));
            assert(listed.to_set().contains(coords@[k]));
            assert(resource_tiles(before).contains(coords@[k]));
        }
        assert(coords@.to_set() =~= resource_tiles(before)) by {
            assert forall|coord: Tile| coords@.to_set().contains(coord) == listed.to_set().contains(
                coord,
            ) by {
                vstd::seq_lib::to_multiset_contains(coords@, coord);
                vstd::seq_lib::to_multiset_contains(listed, coord);
            }
        }
        assert(NumberSearch::valid(start)) by {
            assert forall|corner: Corner| numbered_around(cleared, corner) == 0 by {}
        }
    }
    assert(start == cleared_board(config, before, old(grid).edges@, old(grid).corners@));
    let ghost failed: Seq<Seq<i32>> = Seq::empty();
    let ghost order = numbers@;
    let mut found = false;
    let mut tries: u32 = 0;
    while tries < MAX_TRIES && !found
        invariant
            coords@.no_duplicates(),
            coords@.to_set() == resource_tiles(before),
            coords.len() == numbers.len(),
            numbers@.to_multiset() == config.numbers@.to_multiset(),
            numbers@.len() == config.numbers@.len(),
            start == cleared_board(config, before, old(grid).edges@, old(grid).corners@),
            start.tiles == cleared,
            cleared == without_tokens(before),
            tries <= MAX_TRIES,
            failed.len() == tries,
            number_attempts_failed(config, start, coords@, failed),
            found ==> rearranged(config.numbers@, order, 0) && number_attempt(
                start,
                coords@,
                order,
            ).found && number_attempt(start, coords@, order).model == search.model(),
            NumberSearch::valid(start),
            forall|k: int| 0 <= k < coords.len() ==> NumberSearch::vacant(start, #[trigger] coords@[k]),
            !found ==> search.model() == start,
            found ==> filled::<NumberSearch>(start, coords@, numbers@, 0) == Some(search.model())
                && NumberSearch::valid(search.model()),
            tries > 0 ==> numbers@.len() > 0,
        decreases MAX_TRIES - tries + if found { 0int } else { 1int },
    {
        let mut iterations = MAX_ITERATIONS;
        proof {
            order = numbers@;
            assert(order.take(0) =~= config.numbers@.take(0));
        }
        match recurse(&mut search, &coords, &mut numbers, 0, &mut iterations) {
            Ok(()) => {
                found = true;
            },
            Err(()) => {
                proof {
                    failed = failed.push(order);
                }
                tries += 1;
                proof {
                    vstd::seq_lib::to_multiset_len(numbers@);
                }
                shuffle(&mut numbers, rng);
                proof {
                    vstd::seq_lib::to_multiset_len(numbers@);
                }
                clear_numbers(&mut search.grid);
                proof {
                    assert(search.grid.tiles@ =~= cleared);
                }
            },
        }
    }
    proof {
        if found {
            let after = search.grid.tiles@;
            lemma_filled_numbers(start, coords@, numbers@, 0, search.model());
            assert(tokens_placed(after, coords@, numbers@));
            assert forall|coord: Tile| #[trigger] after.contains_key(coord) implies after[coord]
                == with_token(before[coord], after[coord].number) && (after[coord].number is Some
                <==> before[coord].tile_type is Resource) by {
                if exists|k: int| 0 <= k < coords.len() && coords@[k] == coord {
                    let k = choose|k: int| 0 <= k < coords.len() && coords@[k] == coord;
                    assert(coords@.to_set().contains(coords@[k]));
                    assert(after[coords@[k]] == with_token(cleared[coords@[k]], Some(numbers@[k])));
                } else {
                    assert(!coords@.to_set().contains(coord));
                    assert(after[coord] == cleared[coord]);
                }
            }
            assert(after.dom() == before.dom());
            assert(corners_balanced(
                after,
                config.min_corner_score as int,
                config.max_corner_score as int,
            ));
            assert(numbers_generated(config, before, after));
            assert(lists_resource_tiles(before, coords@));
        } else {
            assert(lists_resource_tiles(before, coords@) && failed.len() == MAX_TRIES
                && number_attempts_failed(config, start, coords@, failed));
        }
    }
    std::mem::swap(grid, &mut search.grid);
    if found {
        Ok(())
    } else {
        Err(GenerationError::Exhausted)
    }
}


/// How many resource tiles the settings ask for.
pub open spec fn resource_total(config: &MapGenerationSettings) -> nat {
    (config.wheat_count + config.wood_count + config.sheep_count + config.stone_count
        + config.clay_count + config.gold_count) as nat
}

/// The settings describe a board that can be generated whole, terrain and
/// numbers: they are valid for the tile generator, the bounds on the corner
/// scores leave room, there is one token for each resource tile, and every
/// tile of the footprint is far enough from the ends of the coordinate range
/// for the tiles around its corners to be representable.
pub open spec fn board_settings_valid(config: &MapGenerationSettings) -> bool {
    &&& tile_settings_valid(config)
    &&& config.min_corner_score <= config.max_corner_score
    &&& config.numbers@.len() == resource_total(config)
    &&& forall|i: int|
        0 <= i < config.coords@.len() ==> within_margin(
            (#[trigger] config.coords@[i]).x as int,
            config.coords@[i].y as int,
            2,
        )
}

/// How many of `kinds` are resources.
pub open spec fn resource_count(kinds: Seq<TileType>) -> nat
    decreases kinds.len(),
{
    if kinds.len() == 0 {
        0
    } else {
        resource_count(kinds.drop_last()) + if kinds.last() is Resource {
            1nat
        } else {
            0nat
        }
    }
}

/// The resources among `kinds` are the wheat, the wood, the sheep, the stone,
/// the clay and the gold among them.
proof fn lemma_resource_count(kinds: Seq<TileType>)
    ensures
        resource_count(kinds) == kinds.to_multiset().count(TileType::Resource(Resource::Wheat))
            + kinds.to_multiset().count(TileType::Resource(Resource::Wood))
            + kinds.to_multiset().count(TileType::Resource(Resource::Sheep))
            + kinds.to_multiset().count(TileType::Resource(Resource::Stone))
            + kinds.to_multiset().count(TileType::Resource(Resource::Clay))
            + kinds.to_multiset().count(TileType::Resource(Resource::Gold)),
    decreases kinds.len(),
{
    if kinds.len() == 0 {
        assert forall|kind: TileType| kinds.to_multiset().count(kind) == 0 by {
            vstd::seq_lib::to_multiset_contains(kinds, kind);
        }
    } else {
        lemma_resource_count(kinds.drop_last());
        vstd::seq_lib::to_multiset_build(kinds.drop_last(), kinds.last());
        assert(kinds.drop_last().push(kinds.last()) =~= kinds);
    }
}

/// The resource tiles among the first `upto` of `coords`.
spec fn resources_among(tiles: Map<Tile, TileData>, coords: Seq<Tile>, upto: int) -> Set<Tile> {
    Set::new(
        |coord: Tile|
            exists|i: int|
                0 <= i < upto && coords[i] == coord && (#[trigger] tiles[coords[i]]).tile_type
                    is Resource,
    )
}

/// Among coordinates that are all different there are as many resource tiles
/// as the terrain on them has resources.
proof fn lemma_resources_among(tiles: Map<Tile, TileData>, coords: Seq<Tile>, upto: int)
    requires
        coords.no_duplicates(),
        0 <= upto <= coords.len(),
    ensures
        resources_among(tiles, coords, upto).finite(),
        resources_among(tiles, coords, upto).len() == resource_count(
            terrains_at(tiles, coords).take(upto),
        ),
    decreases upto,
{
    let kinds = terrains_at(tiles, coords);
    if upto == 0 {
        assert(resources_among(tiles, coords, upto) =~= Set::<Tile>::empty());
        assert(kinds.take(upto) =~= Seq::<TileType>::empty());
    } else {
        lemma_resources_among(tiles, coords, upto - 1);
        let before = resources_among(tiles, coords, upto - 1);
        let last = coords[upto - 1];
        assert(kinds.take(upto).drop_last() =~= kinds.take(upto - 1));
        assert(kinds.take(upto).last() == tiles[last].tile_type);
        if tiles[last].tile_type is Resource {
            assert(!before.contains(last));
            assert(resources_among(tiles, coords, upto) =~= before.insert(last)) by {
                assert(tiles[coords[upto - 1]].tile_type is Resource);
            }
        } else {
            assert(resources_among(tiles, coords, upto) =~= before);
        }
    }
}

/// On a board that the tile generator returned for settings that are valid
/// for the whole board, the number generator can start.
pub proof fn lemma_numbers_can_follow(config: &MapGenerationSettings, tiles: Map<Tile, TileData>)
    requires
        board_settings_valid(config),
        tiles_generated(config, tiles),
    ensures
        number_settings_valid(config, tiles),
{
    let coords = config.coords@;
    let kinds = terrains_at(tiles, coords);
    lemma_resources_among(tiles, coords, coords.len() as int);
    lemma_resource_count(kinds);
    assert(kinds.take(coords.len() as int) =~= kinds);
    assert(resource_count(kinds) == resource_total(config)) by {
        assert(kinds.to_multiset().count(TileType::Resource(Resource::Wheat)) == configured_count(
            config,
            TileType::Resource(Resource::Wheat),
        ));
        assert(kinds.to_multiset().count(TileType::Resource(Resource::Wood)) == configured_count(
            config,
            TileType::Resource(Resource::Wood),
        ));
        assert(kinds.to_multiset().count(TileType::Resource(Resource::Sheep)) == configured_count(
            config,
            TileType::Resource(Resource::Sheep),
        ));
        assert(kinds.to_multiset().count(TileType::Resource(Resource::Stone)) == configured_count(
            config,
            TileType::Resource(Resource::Stone),
        ));
        assert(kinds.to_multiset().count(TileType::Resource(Resource::Clay)) == configured_count(
            config,
            TileType::Resource(Resource::Clay),
        ));
        assert(kinds.to_multiset().count(TileType::Resource(Resource::Gold)) == configured_count(
            config,
            TileType::Resource(Resource::Gold),
        ));
    }
    assert(resources_among(tiles, coords, coords.len() as int) =~= resource_tiles(tiles)) by {
        assert forall|coord: Tile| resource_tiles(tiles).contains(coord) implies resources_among(
            tiles,
            coords,
            coords.len() as int,
        ).contains(coord) by {
            assert(coords.to_set().contains(coord));
            let i = choose|i: int| 0 <= i < coords.len() && coords[i] == coord;
            assert(tiles[coords[i]].tile_type is Resource);
        }
        assert forall|coord: Tile|
            resources_among(tiles, coords, coords.len() as int).contains(
                coord,
            ) implies resource_tiles(tiles).contains(coord) by {
            let i = choose|i: int|
                0 <= i < coords.len() && coords[i] == coord && (#[trigger] tiles[coords[i]]).tile_type
                    is Resource;
            assert(coords.to_set().contains(coords[i]));
        }
    }
    assert forall|coord: Tile| #[trigger] resource_tiles(tiles).contains(coord) implies within_margin(
        coord.x as int,
        coord.y as int,
        2,
    ) by {
        assert(coords.to_set().contains(coord));
        let i = choose|i: int| 0 <= i < coords.len() && coords[i] == coord;
        assert(within_margin(coords[i].x as int, coords[i].y as int, 2));
    }
}

/// Whether the settings are such that a whole board can be generated.
pub fn validate_board_settings(config: &MapGenerationSettings) -> (valid: bool)
    ensures
        valid == board_settings_valid(config),
{
    if !validate_tile_settings(config) {
        return false;
    }
    if config.min_corner_score > config.max_corner_score {
        return false;
    }
    let resources: u64 = config.wheat_count as u64 + config.wood_count as u64
        + config.sheep_count as u64 + config.stone_count as u64 + config.clay_count as u64
        + config.gold_count as u64;
    if config.numbers.len() as u64 != resources {
        return false;
    }
    let mut i: usize = 0;
    while i < config.coords.len()
        invariant
            0 <= i <= config.coords.len(),
            forall|k: int|
                0 <= k < i ==> within_margin(
                    (#[trigger] config.coords@[k]).x as int,
                    config.coords@[k].y as int,
                    2,
                ),
        decreases config.coords.len() - i,
    {
        let coord = config.coords[i];
        let inside = i32::MIN + 1 < coord.x && coord.x < i32::MAX - 1 && i32::MIN + 1 < coord.y
            && coord.y < i32::MAX - 1;
        if !inside {
            return false;
        }
        i += 1;
    }
    true
}

/// What holds of the tiles of a board that was generated whole: with the
/// tokens taken off it is a board that the tile generator found, the tokens
/// are on it as the number generator placed them, and the terrain is on it as
/// the settings ask for it.
pub open spec fn board_generated(config: &MapGenerationSettings, tiles: Map<Tile, TileData>) -> bool {
    &&& tiles_found(config, without_tokens(tiles))
    &&& numbers_found(config, without_tokens(tiles), Map::empty(), Map::empty(), tiles)
    &&& terrain_placed(config, tiles)
}

/// One of the two generators gave up: the tile generator, or the number
/// generator on a board that the tile generator had found.
pub open spec fn board_exhausted(config: &MapGenerationSettings) -> bool {
    tiles_exhausted(config) || exists|terrain: Map<Tile, TileData>| #[trigger]
        tiles_found(config, terrain) && numbers_exhausted(
            config,
            terrain,
            Map::empty(),
            Map::empty(),
        )
}

/// Generates a whole board: first the terrain, then the numbers on it.
///
/// Settings that do not describe a board are refused before anything is
/// tried. If either generator finds no board, there is no board: a board
/// with terrain and without numbers is never returned.
pub fn generate_board(config: &MapGenerationSettings, rng: &mut StdRng) -> (result: Result<
    GameGrid,
    GenerationError,
>)
    ensures
        match result {
            Ok(grid) => {
                &&& board_settings_valid(config)
                &&& board_generated(config, grid.tiles@)
                &&& grid.edges@ == Map::<Edge, EdgeData>::empty()
                &&& grid.corners@ == Map::<Corner, CornerData>::empty()
            },
            Err(GenerationError::Configuration) => !board_settings_valid(config),
            Err(GenerationError::Exhausted) => {
                &&& board_settings_valid(config)
                &&& board_exhausted(config)
                &&& config.coords@.len() > 0
            },
        },
{
    if !validate_board_settings(config) {
        return Err(GenerationError::Configuration);
    }
    let mut grid = match generate_tiles(config, rng) {
        Ok(grid) => grid,
        Err(error) => {
            return Err(error);
        },
    };
    let ghost terrain = grid.tiles@;
    proof {
        lemma_numbers_can_follow(config, terrain);
    }
    match generate_numbers(config, &mut grid, rng) {
        Ok(()) => {
            proof {
                assert(without_tokens(grid.tiles@) =~= terrain);
                lemma_terrain_without_tokens(config, grid.tiles@);
            }
            Ok(grid)
        },
        Err(error) => Err(error),
    }
}

} // verus!
