use catan_lib::configuration::{MapGenerationSettings, Rules};
use catan_lib::generation::{generate_board, GenerationError};
use catan_lib::hex_coordinates::{Corner, CornerDirection, Edge, EdgeDirection, HexCoord, Tile};
use catan_lib::hexgrid::HexGrid;
use catan_lib::player::{player_colors, Player, Resources};
use catan_lib::types::{DevelopmentCard, Road, Settlement, TileType};
use catan_lib::Game;
use rand::rngs::StdRng;
use rand::SeedableRng;
use std::collections::HashSet;

#[test]
pub fn a_new_player_has_the_pieces_of_the_rules() {
    let rules = Rules::defaults_vanilla();
    let player = Player::new(7, 0x00ff00, &rules);
    assert_eq!(player.id(), 7);
    assert_eq!(player.color, 0x00ff00);
    assert!(player.hidden_devcards.is_empty());
    assert!(player.visible_devcards.is_empty());
    assert_eq!(player.resources, Resources::new());
    assert_eq!(player.roads, 15);
    assert_eq!(player.ships, 0);
    assert_eq!(player.settlements, 5);
    assert_eq!(player.cities, 4);
}

#[test]
pub fn an_empty_hand_holds_nothing() {
    let hand = Resources::new();
    assert_eq!(
        (hand.wheat, hand.sheep, hand.wood, hand.clay, hand.rocks, hand.gold),
        (0, 0, 0, 0, 0, 0)
    );
}

#[test]
pub fn rules_of_the_base_game_and_of_the_extension() {
    let base = Rules::defaults_vanilla();
    assert_eq!(base.devcard_knight_count, 14);
    assert_eq!(base.devcard_vp_count, 5);
    assert_eq!(base.thief_resource_threshold, 7);
    assert!(!base.special_build_phase);
    assert!(!base.can_build_ships);
    let six = Rules::defaults_vanilla56();
    assert_eq!(six.devcard_knight_count, 20);
    assert_eq!(six.devcard_monopoly_count, 3);
    assert!(six.special_build_phase);
    assert_eq!(six.road_count, base.road_count);
}

#[test]
pub fn settings_of_the_base_game_and_of_the_extension() {
    let base = MapGenerationSettings::defaults_vanilla();
    assert_eq!(base.coords.len(), 19);
    assert_eq!(base.numbers, vec![2, 3, 3, 4, 4, 5, 5, 6, 6, 8, 8, 9, 9, 10, 10, 11, 11, 12]);
    assert_eq!(
        base.wheat_count + base.wood_count + base.sheep_count + base.stone_count
            + base.clay_count,
        18
    );
    assert_eq!(base.desert_count, 1);
    assert_eq!((base.min_corner_score, base.max_corner_score), (2, 12));
    assert!(base.avoid_adjacent);
    let unique: HashSet<Tile> = base.coords.iter().copied().collect();
    assert_eq!(unique.len(), 19);
    for coord in base.coords.iter() {
        assert!(coord.x.abs() <= 2 && coord.y.abs() <= 2 && (coord.x + coord.y).abs() <= 2);
    }

    let six = MapGenerationSettings::defaults_vanilla56();
    assert_eq!(six.coords.len(), 30);
    assert_eq!(six.numbers.len(), 28);
    assert_eq!(six.desert_count, 2);
    let unique: HashSet<Tile> = six.coords.iter().copied().collect();
    assert_eq!(unique.len(), 30);
    let mut rows = [0; 7];
    for coord in six.coords.iter() {
        rows[(coord.y + 3) as usize] += 1;
    }
    assert_eq!(rows, [3, 4, 5, 6, 5, 4, 3]);
}

#[test]
pub fn colors_by_player() {
    let rules = Rules::defaults_vanilla();
    let players = vec![
        Player::new(4, 10, &rules),
        Player::new(9, 20, &rules),
        Player::new(4, 30, &rules),
    ];
    let colors = player_colors(&players);
    assert_eq!(colors.len(), 2);
    assert_eq!(colors.get(&4), Some(&30));
    assert_eq!(colors.get(&9), Some(&20));

    let game = Game {
        id: 1,
        players,
        rules,
        grid: HexGrid::new(),
        development_cards: vec![DevelopmentCard::Knight],
    };
    assert_eq!(game.get_player_colors(), colors);
}

#[test]
pub fn a_whole_board_has_terrain_and_numbers() {
    let config = MapGenerationSettings::defaults_vanilla();
    let mut rng = StdRng::seed_from_u64(11);
    let grid = generate_board(&config, &mut rng).unwrap();
    assert_eq!(grid.tiles.len(), 19);
    let mut numbers = Vec::new();
    for coord in grid.tiles.keys() {
        let tile = grid.tiles.get(&coord).unwrap();
        match tile.tile_type {
            TileType::Resource(_) => numbers.push(tile.number.unwrap()),
            _ => assert_eq!(tile.number, None),
        }
    }
    numbers.sort();
    assert_eq!(numbers, config.numbers);
}

#[test]
pub fn a_whole_board_is_refused_for_settings_that_do_not_fit() {
    let mut rng = StdRng::seed_from_u64(11);
    let mut config = MapGenerationSettings::defaults_vanilla();
    config.numbers.push(7);
    assert_eq!(generate_board(&config, &mut rng).err(), Some(GenerationError::Configuration));

    let mut config = MapGenerationSettings::defaults_vanilla();
    config.min_corner_score = 13;
    assert_eq!(generate_board(&config, &mut rng).err(), Some(GenerationError::Configuration));

    let mut config = MapGenerationSettings::defaults_vanilla();
    for coord in config.coords.iter_mut() {
        coord.x += i32::MAX - 3;
    }
    assert_eq!(generate_board(&config, &mut rng).err(), Some(GenerationError::Configuration));

    let mut config = MapGenerationSettings::defaults_vanilla();
    config.min_corner_score = 6;
    config.max_corner_score = 6;
    assert_eq!(generate_board(&config, &mut rng).err(), Some(GenerationError::Exhausted));
}

#[test]
pub fn the_demo_game_covers_the_board_with_roads_and_settlements() {
    let mut rng = StdRng::seed_from_u64(2024);
    let game = Game::generate_demo(&mut rng).unwrap();
    assert_eq!(game.id, 12345);
    assert_eq!(game.rules, Rules::defaults_vanilla());
    assert!(game.development_cards.is_empty());
    assert_eq!(game.players.len(), 3);
    let colors = game.get_player_colors();
    assert_eq!(colors.get(&0), Some(&0x0000ff));
    assert_eq!(colors.get(&1), Some(&0x00ff00));
    assert_eq!(colors.get(&2), Some(&0xff0000));

    let mut edges: HashSet<Edge> = HashSet::new();
    let mut corners: HashSet<Corner> = HashSet::new();
    for tile in game.grid.tiles.keys() {
        edges.extend(tile.get_edge_neighbors());
        corners.extend(tile.get_corner_neighbors());
    }
    assert_eq!(game.grid.tiles.len(), 19);
    assert_eq!(edges.len(), 72);
    assert_eq!(corners.len(), 54);
    assert_eq!(game.grid.edges.len(), 72);
    assert_eq!(game.grid.corners.len(), 54);
    assert_eq!(game.grid.edges.keys().into_iter().collect::<HashSet<_>>(), edges);
    assert_eq!(game.grid.corners.keys().into_iter().collect::<HashSet<_>>(), corners);

    let mut road_owners = HashSet::new();
    for edge in game.grid.edges.keys() {
        let data = game.grid.edges.get(&edge).unwrap();
        assert_eq!(data.port, None);
        match data.road {
            Road::Road(owner) => {
                assert!(owner < 3);
                road_owners.insert(owner);
            },
            other => panic!("not a road: {:?}", other),
        }
    }
    assert!(road_owners.len() > 1);
    let mut kinds = HashSet::new();
    for corner in game.grid.corners.keys() {
        match game.grid.corners.get(&corner).unwrap().settlement {
            Settlement::Empty => {
                kinds.insert(0);
            },
            Settlement::Settlement(owner) => {
                assert!(owner < 3);
                kinds.insert(1);
            },
            Settlement::City(owner) => {
                assert!(owner < 3);
                kinds.insert(2);
            },
        }
    }
    assert!(kinds.len() > 1);
}

#[test]
pub fn edge_and_corner_maps_count_their_entries() {
    let mut grid: HexGrid<i32, i32, i32> = HexGrid::new();
    assert!(grid.edges.is_empty());
    assert!(grid.corners.is_empty());
    for direction in [
        EdgeDirection::Northwest,
        EdgeDirection::Northeast,
        EdgeDirection::East,
        EdgeDirection::Southeast,
        EdgeDirection::Southwest,
        EdgeDirection::West,
    ] {
        grid.edges.insert(Edge::new(0, 0, direction), 1);
        grid.edges.insert(Edge::new(1, 0, direction), 1);
    }
    // Two tiles side by side share one of their twelve edges.
    assert_eq!(grid.edges.len(), 11);
    for direction in [
        CornerDirection::Northwest,
        CornerDirection::North,
        CornerDirection::Northeast,
        CornerDirection::Southeast,
        CornerDirection::South,
        CornerDirection::Southwest,
    ] {
        grid.corners.insert(Corner::new(0, 0, direction), 1);
        grid.corners.insert(Corner::new(1, 0, direction), 1);
    }
    // And two of their twelve corners.
    assert_eq!(grid.corners.len(), 10);
    assert!(!grid.corners.is_empty());
}
