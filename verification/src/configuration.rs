//! The rules of a game and the settings from which a board is generated.

use vstd::prelude::*;
use crate::hex_coordinates::Tile;

verus! {

/// The rules of a game. They stay the same for the whole game.
#[derive(Debug, Clone, Eq, PartialEq)]
pub struct Rules {
    pub road_count: u32,
    pub ship_count: u32,
    pub settlement_count: u32,
    pub city_count: u32,
    pub thief_resource_threshold: u32,
    pub can_build_ships: bool,
    pub hide_unexplored_tiles: bool,
    pub devcard_knight_count: u32,
    pub devcard_vp_count: u32,
    pub devcard_yop_count: u32,
    pub devcard_monopoly_count: u32,
    pub devcard_road_count: u32,
    pub special_build_phase: bool,
}

/// What a board is generated from. Only the generators read these settings;
/// nothing of them is needed once the board exists.
#[derive(Debug, Clone, Eq, PartialEq)]
pub struct MapGenerationSettings {
    pub wheat_count: u32,
    pub wood_count: u32,
    pub clay_count: u32,
    pub stone_count: u32,
    pub sheep_count: u32,
    pub desert_count: u32,
    pub gold_count: u32,
    pub ocean_count: u32,
    /// The least and the greatest sum of the weights of the numbers on the
    /// three tiles around a corner that the number generator accepts. Bounds
    /// that are too strict leave no board to find.
    pub min_corner_score: u32,
    pub max_corner_score: u32,
    /// Whether two adjacent tiles may not have the same terrain (ocean
    /// excepted).
    pub avoid_adjacent: bool,
    /// The tiles of the board, in the order in which they are filled.
    pub coords: Vec<Tile>,
    /// The number tokens, one for each resource tile.
    pub numbers: Vec<i32>,
}


/// The rules of the base game for three or four players.
pub open spec fn vanilla_rules() -> Rules {
    Rules {
        road_count: 15,
        ship_count: 0,
        settlement_count: 5,
        city_count: 4,
        thief_resource_threshold: 7,
        can_build_ships: false,
        hide_unexplored_tiles: false,
        devcard_knight_count: 14,
        devcard_vp_count: 5,
        devcard_yop_count: 2,
        devcard_monopoly_count: 2,
        devcard_road_count: 2,
        special_build_phase: false,
    }
}

/// The rules of the base game with the extension for five or six players.
pub open spec fn vanilla56_rules() -> Rules {
    Rules {
        road_count: 15,
        ship_count: 0,
        settlement_count: 5,
        city_count: 4,
        thief_resource_threshold: 7,
        can_build_ships: false,
        hide_unexplored_tiles: false,
        devcard_knight_count: 20,
        devcard_vp_count: 5,
        devcard_yop_count: 3,
        devcard_monopoly_count: 3,
        devcard_road_count: 3,
        special_build_phase: true,
    }
}

impl Rules {
    /// The rules of the base game.
    pub fn defaults_vanilla() -> (rules: Rules)
        ensures
            rules == vanilla_rules(),
    {
        Rules {
            road_count: 15,
            ship_count: 0,
            settlement_count: 5,
            city_count: 4,
            thief_resource_threshold: 7,
            can_build_ships: false,
            hide_unexplored_tiles: false,
            devcard_knight_count: 14,
            devcard_vp_count: 5,
            devcard_yop_count: 2,
            devcard_monopoly_count: 2,
            devcard_road_count: 2,
            special_build_phase: false,
        }
    }

    /// The rules of the base game with the extension for five or six players.
    pub fn defaults_vanilla56() -> (rules: Rules)
        ensures
            rules == vanilla56_rules(),
    {
        Rules {
            road_count: 15,
            ship_count: 0,
            settlement_count: 5,
            city_count: 4,
            thief_resource_threshold: 7,
            can_build_ships: false,
            hide_unexplored_tiles: false,
            devcard_knight_count: 20,
            devcard_vp_count: 5,
            devcard_yop_count: 3,
            devcard_monopoly_count: 3,
            devcard_road_count: 3,
            special_build_phase: true,
        }
    }
}

/// Whether `tile` belongs to the board of the base game: the tiles at most
/// two steps from the tile at the origin.
pub open spec fn on_vanilla_board(tile: Tile) -> bool {
    &&& -2 <= tile.x <= 2
    &&& -2 <= tile.y <= 2
    &&& -2 <= tile.x + tile.y <= 2
}

/// The board of the base game, row by row.
pub open spec fn vanilla_footprint() -> Seq<Tile> {
    seq![
        Tile::at(0, -2),
        Tile::at(1, -2),
        Tile::at(2, -2),
        Tile::at(-1, -1),
        Tile::at(0, -1),
        Tile::at(1, -1),
        Tile::at(2, -1),
        Tile::at(-2, 0),
        Tile::at(-1, 0),
        Tile::at(0, 0),
        Tile::at(1, 0),
        Tile::at(2, 0),
        Tile::at(-2, 1),
        Tile::at(-1, 1),
        Tile::at(0, 1),
        Tile::at(1, 1),
        Tile::at(-2, 2),
        Tile::at(-1, 2),
        Tile::at(0, 2),
    ]
}

/// The number tokens of the base game.
pub open spec fn vanilla_numbers() -> Seq<i32> {
    seq![2i32, 3, 3, 4, 4, 5, 5, 6, 6, 8, 8, 9, 9, 10, 10, 11, 11, 12]
}

/// Whether these are the settings of the base game: nineteen tiles, one of
/// them desert, and eighteen number tokens.
pub open spec fn vanilla_settings(settings: &MapGenerationSettings) -> bool {
    &&& settings.wheat_count == 4
    &&& settings.wood_count == 4
    &&& settings.clay_count == 3
    &&& settings.stone_count == 3
    &&& settings.sheep_count == 4
    &&& settings.desert_count == 1
    &&& settings.gold_count == 0
    &&& settings.ocean_count == 0
    &&& settings.min_corner_score == 2
    &&& settings.max_corner_score == 12
    &&& settings.avoid_adjacent
    &&& settings.coords@ == vanilla_footprint()
    &&& settings.numbers@ == vanilla_numbers()
}

/// The footprint of the base game holds each tile of the board once.
pub proof fn lemma_vanilla_footprint()
    ensures
        vanilla_footprint().len() == 19,
        vanilla_footprint().no_duplicates(),
        forall|tile: Tile| vanilla_footprint().contains(tile) <==> on_vanilla_board(tile),
{
    let coords = vanilla_footprint();
    assert forall|tile: Tile| on_vanilla_board(tile) implies coords.contains(tile) by {
        let row: int = if tile.y == -2 {
            0
        } else if tile.y == -1 {
            4
        } else if tile.y == 0 {
            9
        } else if tile.y == 1 {
            14
        } else {
            18
        };
        assert(coords[row + tile.x] == tile);
    }
}

/// Whether `tile` belongs to the board for five or six players: seven rows
/// of three, four, five, six, five, four and three tiles.
pub open spec fn on_vanilla56_board(tile: Tile) -> bool {
    &&& -3 <= tile.y <= 3
    &&& -2 <= tile.x <= 3
    &&& -2 <= tile.x + tile.y <= 3
}

/// The board for five or six players, row by row.
pub open spec fn vanilla56_footprint() -> Seq<Tile> {
    seq![
        Tile::at(1, -3),
        Tile::at(2, -3),
        Tile::at(3, -3),
        Tile::at(0, -2),
        Tile::at(1, -2),
        Tile::at(2, -2),
        Tile::at(3, -2),
        Tile::at(-1, -1),
        Tile::at(0, -1),
        Tile::at(1, -1),
        Tile::at(2, -1),
        Tile::at(3, -1),
        Tile::at(-2, 0),
        Tile::at(-1, 0),
        Tile::at(0, 0),
        Tile::at(1, 0),
        Tile::at(2, 0),
        Tile::at(3, 0),
        Tile::at(-2, 1),
        Tile::at(-1, 1),
        Tile::at(0, 1),
        Tile::at(1, 1),
        Tile::at(2, 1),
        Tile::at(-2, 2),
        Tile::at(-1, 2),
        Tile::at(0, 2),
        Tile::at(1, 2),
        Tile::at(-2, 3),
        Tile::at(-1, 3),
        Tile::at(0, 3),
    ]
}

/// The number tokens of the game for five or six players.
pub open spec fn vanilla56_numbers() -> Seq<i32> {
    seq![2i32, 2, 3, 3, 3, 4, 4, 4, 5, 5, 5, 6, 6, 6, 8, 8, 8, 9, 9, 9, 10, 10, 10, 11, 11, 11, 12, 12]
}

/// Whether these are the settings of the base game with the extension for
/// five or six players: thirty tiles, two of them desert, and twenty-eight
/// number tokens.
pub open spec fn vanilla56_settings(settings: &MapGenerationSettings) -> bool {
    &&& settings.wheat_count == 6
    &&& settings.wood_count == 6
    &&& settings.clay_count == 5
    &&& settings.stone_count == 5
    &&& settings.sheep_count == 6
    &&& settings.desert_count == 2
    &&& settings.gold_count == 0
    &&& settings.ocean_count == 0
    &&& settings.min_corner_score == 2
    &&& settings.max_corner_score == 12
    &&& settings.avoid_adjacent
    &&& settings.coords@ == vanilla56_footprint()
    &&& settings.numbers@ == vanilla56_numbers()
}

/// The footprint for five or six players holds each tile of the board once.
pub proof fn lemma_vanilla56_footprint()
    ensures
        vanilla56_footprint().len() == 30,
        vanilla56_footprint().no_duplicates(),
        forall|tile: Tile| vanilla56_footprint().contains(tile) <==> on_vanilla56_board(tile),
{
    let coords = vanilla56_footprint();
    assert forall|tile: Tile| on_vanilla56_board(tile) implies coords.contains(tile) by {
        let row: int = if tile.y == -3 {
            -1
        } else if tile.y == -2 {
            3
        } else if tile.y == -1 {
            8
        } else if tile.y == 0 {
            14
        } else if tile.y == 1 {
            20
        } else if tile.y == 2 {
            25
        } else {
            29
        };
        assert(coords[row + tile.x] == tile);
    }
}

impl MapGenerationSettings {
    /// The settings of the base game.
    pub fn defaults_vanilla() -> (settings: MapGenerationSettings)
        ensures
            vanilla_settings(&settings),
    {
        let coords = vec![
            Tile::new(0, -2),
            Tile::new(1, -2),
            Tile::new(2, -2),
            Tile::new(-1, -1),
            Tile::new(0, -1),
            Tile::new(1, -1),
            Tile::new(2, -1),
            Tile::new(-2, 0),
            Tile::new(-1, 0),
            Tile::new(0, 0),
            Tile::new(1, 0),
            Tile::new(2, 0),
            Tile::new(-2, 1),
            Tile::new(-1, 1),
            Tile::new(0, 1),
            Tile::new(1, 1),
            Tile::new(-2, 2),
            Tile::new(-1, 2),
            Tile::new(0, 2),
        ];
        let numbers = vec![2, 3, 3, 4, 4, 5, 5, 6, 6, 8, 8, 9, 9, 10, 10, 11, 11, 12];
        assert(coords@ =~= vanilla_footprint());
        assert(numbers@ =~= vanilla_numbers());
        MapGenerationSettings {
            wheat_count: 4,
            wood_count: 4,
            clay_count: 3,
            stone_count: 3,
            sheep_count: 4,
            desert_count: 1,
            gold_count: 0,
            ocean_count: 0,
            min_corner_score: 2,
            max_corner_score: 12,
            avoid_adjacent: true,
            coords,
            numbers,
        }
    }

    /// The settings of the base game with the extension for five or six
    /// players.
    pub fn defaults_vanilla56() -> (settings: MapGenerationSettings)
        ensures
            vanilla56_settings(&settings),
    {
        let coords = vec![
            Tile::new(1, -3),
            Tile::new(2, -3),
            Tile::new(3, -3),
            Tile::new(0, -2),
            Tile::new(1, -2),
            Tile::new(2, -2),
            Tile::new(3, -2),
            Tile::new(-1, -1),
            Tile::new(0, -1),
            Tile::new(1, -1),
            Tile::new(2, -1),
            Tile::new(3, -1),
            Tile::new(-2, 0),
            Tile::new(-1, 0),
            Tile::new(0, 0),
            Tile::new(1, 0),
            Tile::new(2, 0),
            Tile::new(3, 0),
            Tile::new(-2, 1),
            Tile::new(-1, 1),
            Tile::new(0, 1),
            Tile::new(1, 1),
            Tile::new(2, 1),
            Tile::new(-2, 2),
            Tile::new(-1, 2),
            Tile::new(0, 2),
            Tile::new(1, 2),
            Tile::new(-2, 3),
            Tile::new(-1, 3),
            Tile::new(0, 3),
        ];
        let numbers = vec![
            2, 2, 3, 3, 3, 4, 4, 4, 5, 5, 5, 6, 6, 6, 8, 8, 8, 9, 9, 9, 10, 10, 10, 11, 11, 11, 12, 12,
        ];
        assert(coords@ =~= vanilla56_footprint());
        assert(numbers@ =~= vanilla56_numbers());
        MapGenerationSettings {
            wheat_count: 6,
            wood_count: 6,
            clay_count: 5,
            stone_count: 5,
            sheep_count: 6,
            desert_count: 2,
            gold_count: 0,
            ocean_count: 0,
            min_corner_score: 2,
            max_corner_score: 12,
            avoid_adjacent: true,
            coords,
            numbers,
        }
    }
}

} // verus!
