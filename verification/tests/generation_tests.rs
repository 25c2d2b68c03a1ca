use catan_lib::configuration::MapGenerationSettings;
use catan_lib::generation::{
    clear_numbers, generate_numbers, generate_tiles, resource_coords, GenerationError,
};
use catan_lib::number_search::{get_corner_score, prob, NumberSearch};
use catan_lib::tile_search::TileSearch;
use catan_lib::hex_coordinates::{Corner, CornerDirection, HexCoord, Tile};
use catan_lib::hexgrid::HexGrid;
use catan_lib::search::{recurse, swap_entries, SearchState};
use catan_lib::types::{Resource, TileType};
use catan_lib::GameGrid;
use rand::rngs::StdRng;
use rand::SeedableRng;

fn validate_counts(grid: &GameGrid, config: &MapGenerationSettings) {
    let mut wood_count = 0;
    let mut wheat_count = 0;
    let mut clay_count = 0;
    let mut stone_count = 0;
    let mut sheep_count = 0;
    let mut desert_count = 0;
    let mut gold_count = 0;
    let mut ocean_count = 0;

    for coord in grid.tiles.keys() {
        let data = grid.tiles.get(&coord).unwrap();
        match data.tile_type {
            TileType::Resource(Resource::Wood) => wood_count += 1,
            TileType::Resource(Resource::Wheat) => wheat_count += 1,
            TileType::Resource(Resource::Clay) => clay_count += 1,
            TileType::Resource(Resource::Stone) => stone_count += 1,
            TileType::Resource(Resource::Sheep) => sheep_count += 1,
            TileType::Resource(Resource::Gold) => gold_count += 1,
            TileType::Desert => desert_count += 1,
            TileType::Ocean => ocean_count += 1,
        }
    }

    assert_eq!(wood_count, config.wood_count);
    assert_eq!(wheat_count, config.wheat_count);
    assert_eq!(clay_count, config.clay_count);
    assert_eq!(stone_count, config.stone_count);
    assert_eq!(sheep_count, config.sheep_count);
    assert_eq!(desert_count, config.desert_count);
    assert_eq!(gold_count, config.gold_count);
    assert_eq!(ocean_count, config.ocean_count);
}

fn validate_no_adjacent(grid: &GameGrid) {
    for coord in grid.tiles.keys() {
        let tile = grid.tiles.get(&coord).unwrap();
        let same_neighbors = grid
            .get_tile_neighbors(&coord)
            .iter()
            .filter(|(_, d)| d.tile_type != TileType::Ocean && d.tile_type == tile.tile_type)
            .count();
        assert_eq!(same_neighbors, 0)
    }
}

fn validate_oceans(grid: &GameGrid) {
    let oceans: Vec<Tile> = grid
        .tiles
        .keys()
        .into_iter()
        .filter(|coord| grid.tiles.get(coord).unwrap().tile_type == TileType::Ocean)
        .collect();
    if oceans.len() > 1 {
        for coord in oceans {
            let beside = grid
                .get_tile_neighbors(&coord)
                .iter()
                .filter(|(_, d)| d.tile_type == TileType::Ocean)
                .count();
            assert!(beside > 0);
        }
    }
}

/// The sum of the weights on the three tiles around `corner`, if all three
/// carry a token.
fn full_corner_sum(grid: &GameGrid, corner: Corner) -> Option<i32> {
    let mut sum = 0;
    for tile in corner.get_tile_neighbors() {
        sum += prob(grid.tiles.get(&tile)?.number?);
    }
    Some(sum)
}

fn validate_numbers(grid: &GameGrid, config: &MapGenerationSettings) {
    let mut placed: Vec<i32> = Vec::new();
    for coord in grid.tiles.keys() {
        let tile = grid.tiles.get(&coord).unwrap();
        match tile.tile_type {
            TileType::Resource(_) => placed.push(tile.number.unwrap()),
            _ => assert_eq!(tile.number, None),
        }
        for corner in coord.get_corner_neighbors() {
            if let Some(sum) = full_corner_sum(grid, corner) {
                assert!(config.min_corner_score as i32 <= sum);
                assert!(sum <= config.max_corner_score as i32);
            }
        }
    }
    let mut wanted = config.numbers.clone();
    wanted.sort();
    placed.sort();
    assert_eq!(placed, wanted);
}

#[test]
pub fn generate_tiles_vanilla_test() {
    let config = MapGenerationSettings::defaults_vanilla();
    let mut rng = StdRng::from_entropy();
    let grid = generate_tiles(&config, &mut rng).unwrap();

    validate_no_adjacent(&grid);
    validate_counts(&grid, &config);
}

#[test]
pub fn generate_tiles_vanilla56_test() {
    let config = MapGenerationSettings::defaults_vanilla56();
    let mut rng = StdRng::from_entropy();
    let grid = generate_tiles(&config, &mut rng).unwrap();

    validate_no_adjacent(&grid);
    validate_counts(&grid, &config);
}

#[test]
pub fn generate_lotsa_tiles_vanilla_test() {
    for _ in 0..100 {
        generate_tiles_vanilla_test();
    }
}

#[test]
pub fn standard_board_has_nineteen_tiles_and_one_desert() {
    let config = MapGenerationSettings::defaults_vanilla();
    let mut rng = StdRng::seed_from_u64(19);
    let grid = generate_tiles(&config, &mut rng).unwrap();
    assert_eq!(grid.tiles.len(), 19);
    for coord in config.coords.iter() {
        let tile = grid.tiles.get(coord).unwrap();
        assert_eq!(tile.number, None);
        assert!(!tile.thief);
        assert!(!tile.faceup);
    }
    let deserts = grid
        .tiles
        .keys()
        .iter()
        .filter(|coord| grid.tiles.get(coord).unwrap().tile_type == TileType::Desert)
        .count();
    assert_eq!(deserts, 1);
    assert!(grid.edges.keys().is_empty());
    assert!(grid.corners.keys().is_empty());
    validate_no_adjacent(&grid);
    validate_counts(&grid, &config);
}

#[test]
pub fn mismatched_supply_is_a_configuration_error() {
    let mut config = MapGenerationSettings::defaults_vanilla();
    config.desert_count = 0;
    let mut rng = StdRng::seed_from_u64(1);
    assert_eq!(generate_tiles(&config, &mut rng).err(), Some(GenerationError::Configuration));

    let mut config = MapGenerationSettings::defaults_vanilla();
    config.wood_count = 5;
    assert_eq!(generate_tiles(&config, &mut rng).err(), Some(GenerationError::Configuration));
}

#[test]
pub fn repeated_or_extreme_coordinates_are_a_configuration_error() {
    let mut config = MapGenerationSettings::defaults_vanilla();
    config.coords[18] = config.coords[0];
    let mut rng = StdRng::seed_from_u64(1);
    assert_eq!(generate_tiles(&config, &mut rng).err(), Some(GenerationError::Configuration));

    let mut config = MapGenerationSettings::defaults_vanilla();
    config.coords[18] = Tile { x: i32::MAX, y: 0 };
    assert_eq!(generate_tiles(&config, &mut rng).err(), Some(GenerationError::Configuration));
}

#[test]
pub fn two_tiles_of_one_kind_side_by_side_cannot_be_placed() {
    let mut config = MapGenerationSettings::defaults_vanilla();
    config.coords = vec![Tile::new(0, 0), Tile::new(1, 0)];
    config.wheat_count = 2;
    config.wood_count = 0;
    config.clay_count = 0;
    config.stone_count = 0;
    config.sheep_count = 0;
    config.desert_count = 0;
    let mut rng = StdRng::seed_from_u64(3);
    assert_eq!(generate_tiles(&config, &mut rng).err(), Some(GenerationError::Exhausted));

    config.avoid_adjacent = false;
    let grid = generate_tiles(&config, &mut rng).unwrap();
    validate_counts(&grid, &config);
}

#[test]
pub fn no_ocean_tile_lies_apart_from_the_others() {
    let mut config = MapGenerationSettings::defaults_vanilla();
    config.desert_count = 0;
    config.wood_count = 2;
    config.ocean_count = 3;
    for seed in 0..20 {
        let mut rng = StdRng::seed_from_u64(seed);
        let grid = generate_tiles(&config, &mut rng).unwrap();
        validate_counts(&grid, &config);
        validate_no_adjacent(&grid);
        validate_oceans(&grid);
    }
}

#[test]
pub fn separate_tiles_cannot_both_be_ocean() {
    let mut config = MapGenerationSettings::defaults_vanilla();
    config.coords = vec![Tile::new(0, 0), Tile::new(5, 5)];
    config.wheat_count = 0;
    config.wood_count = 0;
    config.clay_count = 0;
    config.stone_count = 0;
    config.sheep_count = 0;
    config.desert_count = 0;
    config.ocean_count = 2;
    let mut rng = StdRng::seed_from_u64(3);
    assert_eq!(generate_tiles(&config, &mut rng).err(), Some(GenerationError::Exhausted));

    config.coords = vec![Tile::new(0, 0), Tile::new(0, 1)];
    let grid = generate_tiles(&config, &mut rng).unwrap();
    validate_oceans(&grid);
}

#[test]
pub fn different_seeds_give_different_boards() {
    let config = MapGenerationSettings::defaults_vanilla();
    let mut boards = Vec::new();
    for seed in 0..8 {
        let mut rng = StdRng::seed_from_u64(seed);
        let grid = generate_tiles(&config, &mut rng).unwrap();
        let kinds: Vec<TileType> =
            config.coords.iter().map(|coord| grid.tiles.get(coord).unwrap().tile_type).collect();
        boards.push(kinds);
    }
    assert!(boards.iter().any(|board| *board != boards[0]));

    let mut first = StdRng::seed_from_u64(42);
    let mut second = StdRng::seed_from_u64(42);
    let one = generate_tiles(&config, &mut first).unwrap();
    let other = generate_tiles(&config, &mut second).unwrap();
    assert_eq!(one, other);
}

#[test]
pub fn numbers_on_the_standard_board() {
    let config = MapGenerationSettings::defaults_vanilla();
    for seed in 0..10 {
        let mut rng = StdRng::seed_from_u64(seed);
        let mut grid = generate_tiles(&config, &mut rng).unwrap();
        let before = grid.clone();
        assert_eq!(generate_numbers(&config, &mut grid, &mut rng), Ok(()));
        validate_numbers(&grid, &config);
        validate_counts(&grid, &config);
        for coord in before.tiles.keys() {
            let was = before.tiles.get(&coord).unwrap();
            let is = grid.tiles.get(&coord).unwrap();
            assert_eq!(was.tile_type, is.tile_type);
            assert_eq!(was.thief, is.thief);
            assert_eq!(was.faceup, is.faceup);
        }
    }
}

#[test]
pub fn numbers_on_the_board_for_six() {
    let config = MapGenerationSettings::defaults_vanilla56();
    let mut rng = StdRng::seed_from_u64(56);
    let mut grid = generate_tiles(&config, &mut rng).unwrap();
    assert_eq!(generate_numbers(&config, &mut grid, &mut rng), Ok(()));
    validate_numbers(&grid, &config);
}

#[test]
pub fn bounds_that_nothing_meets_exhaust_the_search() {
    let mut config = MapGenerationSettings::defaults_vanilla();
    let mut rng = StdRng::seed_from_u64(6);
    let mut grid = generate_tiles(&config, &mut rng).unwrap();
    config.min_corner_score = 6;
    config.max_corner_score = 6;
    assert_eq!(generate_numbers(&config, &mut grid, &mut rng), Err(GenerationError::Exhausted));
    for coord in grid.tiles.keys() {
        assert_eq!(grid.tiles.get(&coord).unwrap().number, None);
    }
    validate_counts(&grid, &config);
}

#[test]
pub fn number_settings_that_do_not_fit_are_a_configuration_error() {
    let mut config = MapGenerationSettings::defaults_vanilla();
    let mut rng = StdRng::seed_from_u64(6);
    let mut grid = generate_tiles(&config, &mut rng).unwrap();
    let before = grid.clone();

    config.numbers.pop();
    assert_eq!(generate_numbers(&config, &mut grid, &mut rng), Err(GenerationError::Configuration));
    assert_eq!(grid, before);

    let mut config = MapGenerationSettings::defaults_vanilla();
    config.min_corner_score = 9;
    config.max_corner_score = 8;
    assert_eq!(generate_numbers(&config, &mut grid, &mut rng), Err(GenerationError::Configuration));
    assert_eq!(grid, before);
}

#[test]
pub fn tokens_already_on_the_grid_are_replaced() {
    let config = MapGenerationSettings::defaults_vanilla();
    let mut rng = StdRng::seed_from_u64(8);
    let mut grid = generate_tiles(&config, &mut rng).unwrap();
    for coord in grid.tiles.keys() {
        grid.tiles.get_mut(&coord).unwrap().number = Some(7);
    }
    assert_eq!(generate_numbers(&config, &mut grid, &mut rng), Ok(()));
    validate_numbers(&grid, &config);

    clear_numbers(&mut grid);
    for coord in grid.tiles.keys() {
        assert_eq!(grid.tiles.get(&coord).unwrap().number, None);
    }
    assert_eq!(resource_coords(&grid).len(), 18);
}

#[test]
pub fn weights_of_the_tokens() {
    let expected = [
        (2, 1),
        (3, 2),
        (4, 3),
        (5, 4),
        (6, 5),
        (7, 0),
        (8, 5),
        (9, 4),
        (10, 3),
        (11, 2),
        (12, 1),
        (0, 0),
        (1, 0),
        (13, 0),
        (-6, 0),
        (i32::MAX, 0),
    ];
    for (number, weight) in expected {
        assert_eq!(prob(number), weight);
    }
}

fn numbered(kind: TileType, number: Option<i32>) -> catan_lib::types::Tile {
    catan_lib::types::Tile { tile_type: kind, number, thief: false, faceup: false }
}

#[test]
pub fn corner_scores_need_two_tokens() {
    let mut grid: GameGrid = HexGrid::new();
    let corner = Corner::new(0, 0, CornerDirection::North);
    assert_eq!(get_corner_score(&grid, corner), None);
    grid.tiles.insert(Tile::new(0, 0), numbered(TileType::Resource(Resource::Wood), Some(6)));
    assert_eq!(get_corner_score(&grid, corner), None);
    grid.tiles.insert(Tile::new(-1, 1), numbered(TileType::Desert, None));
    assert_eq!(get_corner_score(&grid, corner), None);
    grid.tiles.insert(Tile::new(0, 1), numbered(TileType::Resource(Resource::Clay), Some(3)));
    assert_eq!(get_corner_score(&grid, corner), Some(7));
    grid.tiles.insert(Tile::new(-1, 1), numbered(TileType::Resource(Resource::Clay), Some(12)));
    assert_eq!(get_corner_score(&grid, corner), Some(8));
    grid.tiles.insert(Tile::new(0, 1), numbered(TileType::Resource(Resource::Clay), Some(7)));
    assert_eq!(get_corner_score(&grid, corner), Some(6));
}

#[test]
pub fn a_token_is_placed_only_where_the_corners_allow_it() {
    let mut grid: GameGrid = HexGrid::new();
    for coord in [Tile::new(0, 0), Tile::new(1, 0), Tile::new(0, 1)] {
        grid.tiles.insert(coord, numbered(TileType::Resource(Resource::Wheat), None));
    }
    let mut search = NumberSearch { grid, min_corner_score: 4, max_corner_score: 11 };
    // No corner has a score yet: any weight up to the upper bound goes.
    assert_eq!(search.place(&Tile::new(0, 0), &6), Ok(()));
    assert_eq!(search.place(&Tile::new(1, 0), &8), Ok(()));
    // The corner between the three tiles now has the score 10.
    assert_eq!(search.place(&Tile::new(0, 1), &3), Err(()));
    assert_eq!(search.grid.tiles.get(&Tile::new(0, 1)).unwrap().number, None);
    assert_eq!(search.place(&Tile::new(0, 1), &2), Ok(()));
    assert_eq!(search.grid.tiles.get(&Tile::new(0, 1)).unwrap().number, Some(2));
    search.remove(&Tile::new(0, 1));
    assert_eq!(search.grid.tiles.get(&Tile::new(0, 1)).unwrap().number, None);
    assert_eq!(search.grid.tiles.get(&Tile::new(0, 0)).unwrap().number, Some(6));

    let mut low = NumberSearch { grid: search.grid, min_corner_score: 12, max_corner_score: 3 };
    low.remove(&Tile::new(0, 0));
    low.remove(&Tile::new(1, 0));
    // Without a scored corner the weight alone is held against the upper bound.
    assert_eq!(low.place(&Tile::new(0, 0), &5), Err(()));
    assert_eq!(low.place(&Tile::new(0, 0), &4), Ok(()));
}

#[test]
pub fn a_corner_with_two_tokens_is_not_held_to_the_bounds() {
    let mut grid: GameGrid = HexGrid::new();
    grid.tiles.insert(Tile::new(0, 0), numbered(TileType::Resource(Resource::Wheat), None));
    grid.tiles.insert(Tile::new(1, 0), numbered(TileType::Resource(Resource::Wood), None));
    let mut config = MapGenerationSettings::defaults_vanilla();
    config.numbers = vec![2, 12];
    config.min_corner_score = 6;
    config.max_corner_score = 12;
    let mut rng = StdRng::seed_from_u64(2);
    assert_eq!(generate_numbers(&config, &mut grid, &mut rng), Ok(()));
    let corner = Corner::new(0, 0, CornerDirection::Northeast);
    assert_eq!(get_corner_score(&grid, corner), Some(2));
}

#[test]
pub fn search_places_the_supply_in_the_order_it_ends_in() {
    let coords = vec![Tile::new(0, 0), Tile::new(1, 0), Tile::new(2, 0)];
    let wheat = TileType::Resource(Resource::Wheat);
    let wood = TileType::Resource(Resource::Wood);
    let mut supply = vec![wheat, wheat, wood];
    let mut search =
        TileSearch { grid: HexGrid::new(), has_started_ocean: false, avoid_adjacent: true };
    let mut iterations = 1000;
    assert_eq!(recurse(&mut search, &coords, &mut supply, 0, &mut iterations), Ok(()));
    assert_eq!(supply, vec![wheat, wood, wheat]);
    for (coord, kind) in coords.iter().zip(supply.iter()) {
        assert_eq!(search.grid.tiles.get(coord).unwrap().tile_type, *kind);
    }
    // Wheat at the first tile, wheat refused and wood placed at the second,
    // wheat at the third: four candidates.
    assert_eq!(iterations, 996);
}

#[test]
pub fn search_that_fails_leaves_everything_as_it_was() {
    let coords = vec![Tile::new(0, 0), Tile::new(1, 0), Tile::new(0, 1)];
    let wheat = TileType::Resource(Resource::Wheat);
    let wood = TileType::Resource(Resource::Wood);
    let mut supply = vec![wheat, wood, wheat];
    let mut search =
        TileSearch { grid: HexGrid::new(), has_started_ocean: false, avoid_adjacent: true };
    let mut iterations = 1000;
    assert_eq!(recurse(&mut search, &coords, &mut supply, 0, &mut iterations), Err(()));
    assert!(iterations > 0);
    assert_eq!(supply, vec![wheat, wood, wheat]);
    assert!(search.grid.tiles.is_empty());
    assert!(!search.has_started_ocean);

    // With too few steps the search gives up although there is a placement.
    let coords = vec![Tile::new(0, 0), Tile::new(1, 0), Tile::new(2, 0)];
    let mut supply = vec![wheat, wheat, wood];
    let mut iterations = 3;
    assert_eq!(recurse(&mut search, &coords, &mut supply, 0, &mut iterations), Err(()));
    assert_eq!(iterations, 0);
    assert_eq!(supply, vec![wheat, wheat, wood]);
    assert!(search.grid.tiles.is_empty());
}

#[test]
pub fn ocean_flag_follows_the_ocean_tiles() {
    let mut search =
        TileSearch { grid: HexGrid::new(), has_started_ocean: false, avoid_adjacent: false };
    assert_eq!(search.place(&Tile::new(0, 0), &TileType::Ocean), Ok(()));
    assert!(search.has_started_ocean);
    assert_eq!(search.place(&Tile::new(2, 2), &TileType::Ocean), Err(()));
    assert_eq!(search.place(&Tile::new(1, 0), &TileType::Ocean), Ok(()));
    search.remove(&Tile::new(1, 0));
    assert!(search.has_started_ocean);
    search.remove(&Tile::new(0, 0));
    assert!(!search.has_started_ocean);
    assert_eq!(search.place(&Tile::new(2, 2), &TileType::Ocean), Ok(()));
}

#[test]
pub fn entries_are_exchanged() {
    let mut entries = vec![1, 2, 3, 4];
    swap_entries(&mut entries, 0, 3);
    assert_eq!(entries, vec![4, 2, 3, 1]);
    swap_entries(&mut entries, 2, 2);
    assert_eq!(entries, vec![4, 2, 3, 1]);
}

#[test]
pub fn nothing_to_place_is_no_failure() {
    let mut config = MapGenerationSettings::defaults_vanilla();
    config.coords = Vec::new();
    config.numbers = Vec::new();
    config.wheat_count = 0;
    config.wood_count = 0;
    config.clay_count = 0;
    config.stone_count = 0;
    config.sheep_count = 0;
    config.desert_count = 0;
    let mut rng = StdRng::seed_from_u64(0);
    let mut grid = generate_tiles(&config, &mut rng).unwrap();
    assert!(grid.tiles.is_empty());
    assert_eq!(generate_numbers(&config, &mut grid, &mut rng), Ok(()));

    grid.tiles.insert(Tile::new(0, 0), numbered(TileType::Desert, Some(5)));
    grid.tiles.insert(Tile::new(1, 0), numbered(TileType::Ocean, None));
    assert_eq!(generate_numbers(&config, &mut grid, &mut rng), Ok(()));
    assert_eq!(grid.tiles.get(&Tile::new(0, 0)).unwrap().number, None);
    assert_eq!(grid.tiles.get(&Tile::new(0, 0)).unwrap().tile_type, TileType::Desert);
}
