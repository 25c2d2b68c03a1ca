use catan_lib::configuration::MapGenerationSettings;
use catan_lib::coord_text::{format_coord, parse_coord, same_text, ParseError};
use catan_lib::generation::{
    terrain_supply, validate_board_settings, validate_tile_settings,
};
use catan_lib::hex_coordinates::{CanonicalCornerDir, CanonicalEdgeDir, Corner, Edge, Tile};
use catan_lib::text::{append_int, chars_of, find_comma, parse_number};
use catan_lib::types::{Resource, TileType};

#[test]
pub fn integers_are_written_in_decimal() {
    for (number, text) in [
        (0, "0"),
        (7, "7"),
        (10, "10"),
        (-1, "-1"),
        (1234567890, "1234567890"),
        (i32::MAX, "2147483647"),
        (i32::MIN, "-2147483648"),
    ] {
        let mut out = String::from("x=");
        append_int(&mut out, number);
        assert_eq!(out, format!("x={}", text));
    }
}

#[test]
pub fn integers_are_read_as_the_standard_library_reads_them() {
    let cases = [
        "0", "-0", "+0", "12", "-12", "+12", "0012", "2147483647", "2147483648", "-2147483648",
        "-2147483649", "99999999999999999999", "", "-", "+", "--1", "+-1", "1-", "1 ", " 1",
        "1_000", "0x10", "1.0", "١٢",
    ];
    for text in cases {
        let chars: Vec<char> = text.chars().collect();
        assert_eq!(parse_number(&chars, 0, chars.len()), text.parse::<i32>().ok(), "{:?}", text);
    }
    let chars = chars_of("ab-42cd");
    assert_eq!(parse_number(&chars, 2, 5), Some(-42));
    assert_eq!(parse_number(&chars, 2, 6), None);
    assert_eq!(parse_number(&chars, 3, 3), None);
}

#[test]
pub fn characters_and_commas() {
    assert_eq!(chars_of("a,é,c"), vec!['a', ',', 'é', ',', 'c']);
    let chars = chars_of("a,é,c");
    assert_eq!(find_comma(&chars, 0), Some(1));
    assert_eq!(find_comma(&chars, 1), Some(1));
    assert_eq!(find_comma(&chars, 2), Some(3));
    assert_eq!(find_comma(&chars, 4), None);
    assert_eq!(find_comma(&chars, 5), None);
}

#[test]
pub fn texts_are_compared_character_by_character() {
    assert!(same_text("Tile", "Tile"));
    assert!(same_text("", ""));
    assert!(!same_text("Tile", "Tiles"));
    assert!(!same_text("Tile", "Tilt"));
    assert!(!same_text("", "x"));
}

#[test]
pub fn coordinates_are_written_and_read_field_by_field() {
    assert_eq!(format_coord(-3, 14, "EdgeEast"), "-3,14,EdgeEast");
    assert_eq!(format_coord(0, 0, ""), "0,0,");
    assert_eq!(
        parse_coord::<Edge>("-3,14,EdgeEast"),
        Ok(Edge { x: -3, y: 14, dir: CanonicalEdgeDir::East })
    );
    assert_eq!(
        parse_coord::<Corner>("5,-5,CornerNorth"),
        Ok(Corner { x: 5, y: -5, dir: CanonicalCornerDir::North })
    );
    assert_eq!(parse_coord::<Tile>("5,-5,"), Err(ParseError::InvalidLabel));
    assert_eq!(parse_coord::<Tile>(",,"), Err(ParseError::InvalidX));
    assert_eq!(parse_coord::<Tile>("1,,"), Err(ParseError::InvalidY));
    assert_eq!(parse_coord::<Tile>(""), Err(ParseError::FieldCount));
    assert_eq!(parse_coord::<Tile>(",,,"), Err(ParseError::FieldCount));
}

#[test]
pub fn labels_of_the_canonical_directions() {
    assert_eq!(CanonicalEdgeDir::Northwest.to_string(), "EdgeNorthwest");
    assert_eq!(CanonicalEdgeDir::Northeast.to_string(), "EdgeNortheast");
    assert_eq!(CanonicalEdgeDir::East.to_string(), "EdgeEast");
    assert_eq!(CanonicalCornerDir::North.to_string(), "CornerNorth");
    assert_eq!(CanonicalCornerDir::Northeast.to_string(), "CornerNortheast");
    assert_eq!(CanonicalEdgeDir::from_str("EdgeEast"), Ok(CanonicalEdgeDir::East));
    assert_eq!(CanonicalEdgeDir::from_str("East"), Err(ParseError::InvalidLabel));
    assert_eq!(CanonicalCornerDir::from_str("CornerNorth"), Ok(CanonicalCornerDir::North));
    assert_eq!(CanonicalCornerDir::from_str("EdgeEast"), Err(ParseError::InvalidLabel));
}

#[test]
pub fn every_parse_error_says_what_is_wrong() {
    assert_eq!(
        ParseError::FieldCount.describe("x"),
        "'x' does not have three fields separated by commas"
    );
    assert_eq!(
        ParseError::InvalidX.describe("a,2,Tile"),
        "'a,2,Tile': the first field is not a valid integer"
    );
    assert_eq!(
        ParseError::InvalidY.describe("1,b,Tile"),
        "'1,b,Tile': the second field is not a valid integer"
    );
    assert_eq!(
        ParseError::InvalidLabel.describe("1,2,Hex"),
        "'1,2,Hex': the third field is not a label of this kind of coordinate"
    );
}

#[test]
pub fn the_supply_holds_each_terrain_as_often_as_asked() {
    let mut config = MapGenerationSettings::defaults_vanilla();
    config.wheat_count = 2;
    config.wood_count = 1;
    config.sheep_count = 0;
    config.stone_count = 1;
    config.clay_count = 1;
    config.gold_count = 2;
    config.desert_count = 1;
    config.ocean_count = 3;
    assert_eq!(
        terrain_supply(&config),
        vec![
            TileType::Resource(Resource::Wheat),
            TileType::Resource(Resource::Wheat),
            TileType::Resource(Resource::Wood),
            TileType::Resource(Resource::Stone),
            TileType::Resource(Resource::Clay),
            TileType::Resource(Resource::Gold),
            TileType::Resource(Resource::Gold),
            TileType::Desert,
            TileType::Ocean,
            TileType::Ocean,
            TileType::Ocean,
        ]
    );
}

#[test]
pub fn settings_are_held_to_the_footprint() {
    let base = MapGenerationSettings::defaults_vanilla();
    assert!(validate_tile_settings(&base));
    assert!(validate_board_settings(&base));
    assert!(validate_board_settings(&MapGenerationSettings::defaults_vanilla56()));

    let mut config = MapGenerationSettings::defaults_vanilla();
    config.coords.pop();
    assert!(!validate_tile_settings(&config));

    let mut config = MapGenerationSettings::defaults_vanilla();
    config.coords[3] = config.coords[4];
    assert!(!validate_tile_settings(&config));

    let mut config = MapGenerationSettings::defaults_vanilla();
    config.coords[0] = Tile { x: 0, y: i32::MIN };
    assert!(!validate_tile_settings(&config));

    // One step from the end of the range is enough for terrain, not for numbers.
    let mut config = MapGenerationSettings::defaults_vanilla();
    config.coords[0] = Tile { x: 0, y: i32::MIN + 1 };
    assert!(validate_tile_settings(&config));
    assert!(!validate_board_settings(&config));

    let mut config = MapGenerationSettings::defaults_vanilla();
    config.numbers[0] = 12;
    assert!(validate_board_settings(&config));
    config.numbers.pop();
    assert!(!validate_board_settings(&config));

    let mut config = MapGenerationSettings::defaults_vanilla();
    config.min_corner_score = 12;
    assert!(validate_board_settings(&config));
    config.min_corner_score = 13;
    assert!(!validate_board_settings(&config));
}
