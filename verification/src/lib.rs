//! Board construction for a hex-tile territory game: the canonical hex
//! coordinate system, a grid keyed by it, and the constrained random
//! generators that fill a board with terrain and number tokens.

pub mod configuration;
pub mod coord_text;
pub mod generation;
pub mod hex_coordinates;
pub mod hex_laws;
pub mod hexgrid;
pub mod number_search;
pub mod player;
pub mod search;
pub mod text;
pub mod tile_search;
pub mod types;

use vstd::prelude::*;
use std::collections::HashMap;
use rand::rngs::StdRng;
use rand::seq::SliceRandom;
use crate::configuration::{
    lemma_vanilla_footprint, on_vanilla_board, vanilla_rules, vanilla_settings,
    MapGenerationSettings, Rules,
};
use crate::generation::{
    board_generated, board_settings_valid, generate_board, without_tokens, GenerationError,
};
use crate::hex_coordinates::{Corner, Edge, HexCoord, Tile};
use crate::player::{colors_of, player_colors, Player, PlayerColor, PlayerID, PlayerView, Resources};
use crate::types::{DevelopmentCard, Road, Settlement};

verus! {

/// What tells one game from another.
pub type GameID = u64;

/// The board of a game: a tile, an edge or a corner of the game at each
/// coordinate.
pub type GameGrid = hexgrid::HexGrid<types::Tile, types::Edge, types::Corner>;

/// A game: its players, its rules, its board and the pile of development
/// cards.
#[derive(Debug, Eq, PartialEq, Clone)]
pub struct Game {
    pub id: GameID,
    pub players: Vec<Player>,
    pub rules: Rules,
    pub grid: GameGrid,
    pub development_cards: Vec<DevelopmentCard>,
}

/// The identifier of the game that `Game::generate_demo` makes.
pub const DEMO_GAME_ID: GameID = 12345;

/// How many players the game that `Game::generate_demo` makes has. Their
/// identifiers count up from zero.
pub const DEMO_PLAYERS: u64 = 3;

/// The color of the demo player `id`: full red, full green or full blue.
pub open spec fn demo_color(id: PlayerID) -> PlayerColor {
    if id == 0 {
        0xff
    } else if id == 1 {
        0xff00
    } else {
        0xff0000
    }
}

/// The demo player `id` at the start of the base game.
pub open spec fn demo_player(id: PlayerID) -> PlayerView {
    PlayerView {
        id,
        color: demo_color(id),
        hidden_devcards: Seq::empty(),
        visible_devcards: Seq::empty(),
        resources: Resources::empty(),
        roads: vanilla_rules().road_count,
        ships: vanilla_rules().ship_count,
        settlements: vanilla_rules().settlement_count,
        cities: vanilla_rules().city_count,
    }
}

/// Whether `edge` is an edge of a tile of the board.
pub open spec fn edge_of_board(tiles: Map<Tile, types::Tile>, edge: Edge) -> bool {
    exists|tile: Tile| #[trigger] tiles.contains_key(tile) && tile.edge_neighbors().contains(edge)
}

/// Whether `corner` is a corner of a tile of the board.
pub open spec fn corner_of_board(tiles: Map<Tile, types::Tile>, corner: Corner) -> bool {
    exists|tile: Tile| #[trigger]
        tiles.contains_key(tile) && tile.corner_neighbors().contains(corner)
}

/// An edge without a port that carries a road of one of the demo players.
pub open spec fn demo_edge(data: types::Edge) -> bool {
    &&& data.port is None
    &&& data.road matches Road::Road(owner) && owner < DEMO_PLAYERS
}

/// A corner that is empty or carries a settlement or a city of one of the
/// demo players.
pub open spec fn demo_corner(data: types::Corner) -> bool {
    match data.settlement {
        Settlement::Empty => true,
        Settlement::Settlement(owner) => owner < DEMO_PLAYERS,
        Settlement::City(owner) => owner < DEMO_PLAYERS,
    }
}

/// `SliceRandom::choose` of the `rand` crate picks one of the items at
/// random, and gives nothing where there is no item.
#[verifier::external_body]
fn pick<'a, T>(items: &'a Vec<T>, rng: &mut StdRng) -> (chosen: Option<&'a T>)
    ensures
        match chosen {
            Some(item) => items@.contains(*item),
            None => items@.len() == 0,
        },
{
    items.choose(rng)
}

/// The identifier of one of the demo players, picked at random.
fn pick_demo_player(rng: &mut StdRng) -> (id: PlayerID)
    ensures
        id < DEMO_PLAYERS,
{
    let ids: Vec<PlayerID> = vec![0, 1, 2];
    match pick(&ids, rng) {
        Some(id) => *id,
        None => 0,
    }
}

/// Puts on each of `edges` a road of a demo player picked at random.
fn build_demo_roads(grid: &mut GameGrid, edges: &Vec<Edge>, rng: &mut StdRng)
    ensures
        final(grid).tiles@ == old(grid).tiles@,
        final(grid).corners@ == old(grid).corners@,
        forall|edge: Edge|
            final(grid).edges@.contains_key(edge) <==> old(grid).edges@.contains_key(edge)
                || edges@.contains(edge),
        forall|edge: Edge| #[trigger]
            final(grid).edges@.contains_key(edge) ==> demo_edge(final(grid).edges@[edge]) || (old(
                grid,
            ).edges@.contains_key(edge) && final(grid).edges@[edge] == old(grid).edges@[edge]),
{
    let mut i: usize = 0;
    while i < edges.len()
        invariant
            0 <= i <= edges.len(),
            grid.tiles@ == old(grid).tiles@,
            grid.corners@ == old(grid).corners@,
            forall|edge: Edge|
                grid.edges@.contains_key(edge) <==> old(grid).edges@.contains_key(edge)
                    || edges@.take(i as int).contains(edge),
            forall|edge: Edge| #[trigger]
                grid.edges@.contains_key(edge) ==> demo_edge(grid.edges@[edge]) || (old(
                    grid,
                ).edges@.contains_key(edge) && grid.edges@[edge] == old(grid).edges@[edge]),
        decreases edges.len() - i,
    {
        let owner = pick_demo_player(rng);
        grid.edges.insert(edges[i], types::Edge { port: None, road: Road::Road(owner) });
        proof {
            let upto = edges@.take(i + 1);
            assert(upto.drop_last() =~= edges@.take(i as int));
            assert forall|edge: Edge| upto.contains(edge) <==> edges@.take(i as int).contains(edge)
                || edge == edges@[i as int] by {
                if upto.contains(edge) {
                    let k = choose|k: int| 0 <= k < upto.len() && upto[k] == edge;
                    if k < i {
                        assert(edges@.take(i as int)[k] == edge);
                    }
                }
                if edges@.take(i as int).contains(edge) {
                    let k = choose|k: int| 0 <= k < i && edges@.take(i as int)[k] == edge;
                    assert(upto[k] == edge);
                }
                if edge == edges@[i as int] {
                    assert(upto[i as int] == edge);
                }
            }
        }
        i += 1;
    }
    assert(edges@.take(edges.len() as int) =~= edges@);
}

/// Leaves each of `corners` empty, or puts on it a settlement or a city of a
/// demo player, as chance has it.
fn build_demo_settlements(grid: &mut GameGrid, corners: &Vec<Corner>, rng: &mut StdRng)
    ensures
        final(grid).tiles@ == old(grid).tiles@,
        final(grid).edges@ == old(grid).edges@,
        forall|corner: Corner|
            final(grid).corners@.contains_key(corner) <==> old(grid).corners@.contains_key(corner)
                || corners@.contains(corner),
        forall|corner: Corner| #[trigger]
            final(grid).corners@.contains_key(corner) ==> demo_corner(final(grid).corners@[corner])
                || (old(grid).corners@.contains_key(corner) && final(grid).corners@[corner] == old(
                grid,
            ).corners@[corner]),
{
    let mut i: usize = 0;
    while i < corners.len()
        invariant
            0 <= i <= corners.len(),
            grid.tiles@ == old(grid).tiles@,
            grid.edges@ == old(grid).edges@,
            forall|corner: Corner|
                grid.corners@.contains_key(corner) <==> old(grid).corners@.contains_key(corner)
                    || corners@.take(i as int).contains(corner),
            forall|corner: Corner| #[trigger]
                grid.corners@.contains_key(corner) ==> demo_corner(grid.corners@[corner]) || (old(
                    grid,
                ).corners@.contains_key(corner) && grid.corners@[corner] == old(
                    grid,
                ).corners@[corner]),
        decreases corners.len() - i,
    {
        let owner = pick_demo_player(rng);
        let kinds = vec![Settlement::Settlement(owner), Settlement::City(owner), Settlement::Empty];
        let settlement = match pick(&kinds, rng) {
            Some(kind) => *kind,
            None => Settlement::Empty,
        };
        grid.corners.insert(corners[i], types::Corner { settlement });
        proof {
            let upto = corners@.take(i + 1);
            assert(upto.drop_last() =~= corners@.take(i as int));
            assert forall|corner: Corner|
                upto.contains(corner) <==> corners@.take(i as int).contains(corner) || corner
                    == corners@[i as int] by {
                if upto.contains(corner) {
                    let k = choose|k: int| 0 <= k < upto.len() && upto[k] == corner;
                    if k < i {
                        assert(corners@.take(i as int)[k] == corner);
                    }
                }
                if corners@.take(i as int).contains(corner) {
                    let k = choose|k: int| 0 <= k < i && corners@.take(i as int)[k] == corner;
                    assert(upto[k] == corner);
                }
                if corner == corners@[i as int] {
                    assert(upto[i as int] == corner);
                }
            }
        }
        i += 1;
    }
    assert(corners@.take(corners.len() as int) =~= corners@);
}

impl Game {
    /// The color of each player by identifier.
    pub fn get_player_colors(&self) -> (colors: HashMap<PlayerID, PlayerColor>)
        ensures
            colors@ == colors_of(self.players@),
    {
        player_colors(&self.players)
    }

    /// A game of three players on a freshly generated board of the base
    /// game, for demonstration: every edge of the board carries a road of a
    /// player picked at random, and every corner is empty or carries a
    /// settlement or a city of a player picked at random.
    ///
    /// There is no game where the generators find no board.
    pub fn generate_demo(rng: &mut StdRng) -> (result: Result<Game, GenerationError>)
        ensures
            result matches Ok(game) ==> {
                &&& game.id == DEMO_GAME_ID
                &&& game.rules == vanilla_rules()
                &&& game.development_cards@ == Seq::<DevelopmentCard>::empty()
                &&& game.players@.len() == DEMO_PLAYERS
                &&& forall|id: int|
                    0 <= id < DEMO_PLAYERS ==> (#[trigger] game.players@[id])@ == demo_player(
                        id as PlayerID,
                    )
                &&& exists|config: MapGenerationSettings| #[trigger]
                    vanilla_settings(&config) && board_generated(&config, game.grid.tiles@)
                &&& forall|edge: Edge|
                    game.grid.edges@.contains_key(edge) <==> edge_of_board(game.grid.tiles@, edge)
                &&& forall|edge: Edge| #[trigger]
                    game.grid.edges@.contains_key(edge) ==> demo_edge(game.grid.edges@[edge])
                &&& forall|corner: Corner|
                    game.grid.corners@.contains_key(corner) <==> corner_of_board(
                        game.grid.tiles@,
                        corner,
                    )
                &&& forall|corner: Corner| #[trigger]
                    game.grid.corners@.contains_key(corner) ==> demo_corner(
                        game.grid.corners@[corner],
                    )
            },
            result matches Err(error) ==> error == GenerationError::Exhausted,
    {
        let generation_config = MapGenerationSettings::defaults_vanilla();
        let rules = Rules::defaults_vanilla();
        proof {
            lemma_vanilla_footprint();
            let coords = generation_config.coords@;
            assert forall|k: int| 0 <= k < coords.len() implies on_vanilla_board(
                #[trigger] coords[k],
            ) by {
                assert(coords.contains(coords[k]));
            }
            assert(board_settings_valid(&generation_config));
        }
        let mut grid = match generate_board(&generation_config, rng) {
            Ok(grid) => grid,
            Err(error) => {
                return Err(error);
            },
        };
        let players = vec![
            Player::new(0, 0xff, &rules),
            Player::new(1, 0xff00, &rules),
            Player::new(2, 0xff0000, &rules),
        ];
        let tile_coords = grid.tiles.keys();
        let ghost tiles = grid.tiles@;
        proof {
            let coords = generation_config.coords@;
            assert(tiles.dom() == without_tokens(tiles).dom());
            assert forall|k: int| 0 <= k < tile_coords.len() implies (
            #[trigger] tile_coords@[k]).interior() by {
                assert(tile_coords@.to_set().contains(tile_coords@[k]));
                assert(coords.to_set().contains(tile_coords@[k]));
                assert(coords.contains(tile_coords@[k]));
            }
        }
        let mut i: usize = 0;
        while i < tile_coords.len()
            invariant
                0 <= i <= tile_coords.len(),
                grid.tiles@ == tiles,
                forall|k: int| 0 <= k < tile_coords.len() ==> (#[trigger] tile_coords@[k]).interior(),
                forall|edge: Edge|
                    grid.edges@.contains_key(edge) <==> exists|k: int|
                        0 <= k < i && (#[trigger] tile_coords@[k]).edge_neighbors().contains(edge),
                forall|edge: Edge| #[trigger]
                    grid.edges@.contains_key(edge) ==> demo_edge(grid.edges@[edge]),
                forall|corner: Corner|
                    grid.corners@.contains_key(corner) <==> exists|k: int|
                        0 <= k < i && (#[trigger] tile_coords@[k]).corner_neighbors().contains(
                            corner,
                        ),
                forall|corner: Corner| #[trigger]
                    grid.corners@.contains_key(corner) ==> demo_corner(grid.corners@[corner]),
            decreases tile_coords.len() - i,
        {
            let tile = tile_coords[i];
            let edges = tile.get_edge_neighbors();
            let corners = tile.get_corner_neighbors();
            build_demo_roads(&mut grid, &edges, rng);
            build_demo_settlements(&mut grid, &corners, rng);
            proof {
                assert forall|edge: Edge|
                    grid.edges@.contains_key(edge) <==> exists|k: int|
                        0 <= k < i + 1 && (#[trigger] tile_coords@[k]).edge_neighbors().contains(
                            edge,
                        ) by {
                    if exists|k: int|
                        0 <= k < i && (#[trigger] tile_coords@[k]).edge_neighbors().contains(edge) {
                        let k = choose|k: int|
                            0 <= k < i && (#[trigger] tile_coords@[k]).edge_neighbors().contains(
                                edge,
                            );
                        assert(0 <= k < i + 1 && tile_coords@[k].edge_neighbors().contains(edge));
                    }
                    if edges@.contains(edge) {
                        assert(tile_coords@[i as int].edge_neighbors().contains(edge));
                    }
                    if exists|k: int|
                        0 <= k < i + 1 && (#[trigger] tile_coords@[k]).edge_neighbors().contains(
                            edge,
                        ) {
                        let k = choose|k: int|
                            0 <= k < i + 1 && (
                            #[trigger] tile_coords@[k]).edge_neighbors().contains(edge);
                        if k < i {
                            assert(0 <= k < i && tile_coords@[k].edge_neighbors().contains(edge));
                        }
                    }
                }
                assert forall|corner: Corner|
                    grid.corners@.contains_key(corner) <==> exists|k: int|
                        0 <= k < i + 1 && (#[trigger] tile_coords@[k]).corner_neighbors().contains(
                            corner,
                        ) by {
                    if exists|k: int|
                        0 <= k < i && (#[trigger] tile_coords@[k]).corner_neighbors().contains(
                            corner,
                        ) {
                        let k = choose|k: int|
                            0 <= k < i && (
                            #[trigger] tile_coords@[k]).corner_neighbors().contains(corner);
                        assert(0 <= k < i + 1 && tile_coords@[k].corner_neighbors().contains(
                            corner,
                        ));
                    }
                    if corners@.contains(corner) {
                        assert(tile_coords@[i as int].corner_neighbors().contains(corner));
                    }
                    if exists|k: int|
                        0 <= k < i + 1 && (#[trigger] tile_coords@[k]).corner_neighbors().contains(
                            corner,
                        ) {
                        let k = choose|k: int|
                            0 <= k < i + 1 && (
                            #[trigger] tile_coords@[k]).corner_neighbors().contains(corner);
                        if k < i {
                            assert(0 <= k < i && tile_coords@[k].corner_neighbors().contains(
                                corner,
                            ));
                        }
                    }
                }
            }
            i += 1;
        }
        proof {
            assert forall|edge: Edge|
                grid.edges@.contains_key(edge) <==> edge_of_board(tiles, edge) by {
                if grid.edges@.contains_key(edge) {
                    let k = choose|k: int|
                        0 <= k < tile_coords.len() && (
                        #[trigger] tile_coords@[k]).edge_neighbors().contains(edge);
                    assert(tile_coords@.to_set().contains(tile_coords@[k]));
                    assert(tiles.contains_key(tile_coords@[k]));
                }
                if edge_of_board(tiles, edge) {
                    let tile = choose|tile: Tile| #[trigger]
                        tiles.contains_key(tile) && tile.edge_neighbors().contains(edge);
                    assert(tile_coords@.to_set().contains(tile));
                    let k = choose|k: int| 0 <= k < tile_coords.len() && tile_coords@[k] == tile;
                    assert(tile_coords@[k].edge_neighbors().contains(edge));
                }
            }
            assert forall|corner: Corner|
                grid.corners@.contains_key(corner) <==> corner_of_board(tiles, corner) by {
                if grid.corners@.contains_key(corner) {
                    let k = choose|k: int|
                        0 <= k < tile_coords.len() && (
                        #[trigger] tile_coords@[k]).corner_neighbors().contains(corner);
                    assert(tile_coords@.to_set().contains(tile_coords@[k]));
                    assert(tiles.contains_key(tile_coords@[k]));
                }
                if corner_of_board(tiles, corner) {
                    let tile = choose|tile: Tile| #[trigger]
                        tiles.contains_key(tile) && tile.corner_neighbors().contains(corner);
                    assert(tile_coords@.to_set().contains(tile));
                    let k = choose|k: int| 0 <= k < tile_coords.len() && tile_coords@[k] == tile;
                    assert(tile_coords@[k].corner_neighbors().contains(corner));
                }
            }
            assert(vanilla_settings(&generation_config) && board_generated(
                &generation_config,
                grid.tiles@,
            ));
        }
        Ok(Game { id: 12345, rules, grid, development_cards: Vec::new(), players })
    }
}

} // verus!
