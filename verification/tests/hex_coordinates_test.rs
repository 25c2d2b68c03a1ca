use catan_lib::coord_text::ParseError;
use catan_lib::hex_coordinates::{Corner, CornerDirection, Edge, EdgeDirection, HexCoord, Tile};
use rand::prelude::{thread_rng, Rng};
use std::collections::HashMap;

const EDGE_DIRECTIONS: [EdgeDirection; 6] = [
    EdgeDirection::Northwest,
    EdgeDirection::Northeast,
    EdgeDirection::East,
    EdgeDirection::Southeast,
    EdgeDirection::Southwest,
    EdgeDirection::West,
];

const CORNER_DIRECTIONS: [CornerDirection; 6] = [
    CornerDirection::Northwest,
    CornerDirection::North,
    CornerDirection::Northeast,
    CornerDirection::Southeast,
    CornerDirection::South,
    CornerDirection::Southwest,
];

#[test]
pub fn tile_equality_test() {
    let tile1 = Tile::new(0, 0);
    let tile2 = Tile::new(0, 0);
    let tile3 = Tile::new(0, 1);

    assert_eq!(tile1, tile2);
    assert_ne!(tile2, tile3);
}

#[test]
pub fn edge_equality_test() {
    let edge1 = Edge::new(0, 0, EdgeDirection::East);
    let edge2 = Edge::new(1, 0, EdgeDirection::West);
    let edge3 = Edge::new(-1, 0, EdgeDirection::East);

    assert_eq!(edge1, edge2);
    assert_ne!(edge2, edge3);
}

#[test]
pub fn corner_equality_test() {
    let corner1 = Corner::new(0, 0, CornerDirection::North);
    let corner2 = Corner::new(-1, 1, CornerDirection::Southeast);
    let corner3 = Corner::new(0, 1, CornerDirection::Southwest);
    let corner4 = Corner::new(0, 1, CornerDirection::Southeast);

    assert_eq!(corner1, corner2);
    assert_eq!(corner2, corner3);
    assert_eq!(corner1, corner3);
    assert_ne!(corner1, corner4);
    assert_ne!(corner2, corner4);
}

#[test]
pub fn tile_neighbors_test() {
    let tile = Tile::new(0, 0);
    let neighbors = tile.get_tile_neighbors();
    assert_eq!(neighbors.len(), 6);

    for dir in &EDGE_DIRECTIONS {
        let edge = Edge::new(0, 0, *dir);
        let neighbors = edge.get_tile_neighbors();
        assert_eq!(neighbors.len(), 2);
    }

    for dir in &CORNER_DIRECTIONS {
        let corner = Corner::new(0, 0, *dir);
        let neighbors = corner.get_tile_neighbors();
        assert_eq!(neighbors.len(), 3);
    }
}

#[test]
pub fn edge_neighbors_test() {
    let tile = Tile::new(0, 0);
    let neighbors = tile.get_edge_neighbors();
    assert_eq!(neighbors.len(), 6);

    for dir in &EDGE_DIRECTIONS {
        let edge = Edge::new(0, 0, *dir);
        let neighbors = edge.get_edge_neighbors();
        assert_eq!(neighbors.len(), 4);
    }

    for dir in &CORNER_DIRECTIONS {
        let corner = Corner::new(0, 0, *dir);
        let neighbors = corner.get_edge_neighbors();
        assert_eq!(neighbors.len(), 3);
    }
}

#[test]
pub fn corner_neighbors_test() {
    let tile = Tile::new(0, 0);
    let neighbors = tile.get_corner_neighbors();
    assert_eq!(neighbors.len(), 6);

    for dir in &EDGE_DIRECTIONS {
        let edge = Edge::new(0, 0, *dir);
        let neighbors = edge.get_corner_neighbors();
        assert_eq!(neighbors.len(), 2);
    }

    for dir in &CORNER_DIRECTIONS {
        let corner = Corner::new(0, 0, *dir);
        let neighbors = corner.get_corner_neighbors();
        assert_eq!(neighbors.len(), 3);
    }
}

#[test]
pub fn string_format_test() {
    let tile = Tile::new(0, 0);
    let edge = Edge::new(0, 0, EdgeDirection::Northeast);
    let corner = Corner::new(0, 0, CornerDirection::Northeast);

    let tile_str = tile.to_string();
    let edge_str = edge.to_string();
    let corner_str = corner.to_string();

    println!("Tile: {}, Edge: {}, Corner: {}", tile_str, edge_str, corner_str);
    assert_eq!(tile_str, "0,0,Tile");
    assert_eq!(edge_str, "0,0,EdgeNortheast");
    assert_eq!(corner_str, "0,0,CornerNortheast");
}

#[test]
pub fn string_conversion_test() {
    let tile1 = Tile::new(0, 0);
    let tile2 = Tile::from_str(tile1.to_string().as_str());
    assert_eq!(Ok(tile1), tile2);

    for dir in &EDGE_DIRECTIONS {
        let edge1 = Edge::new(0, 0, *dir);
        let edge2 = Edge::from_str(edge1.to_string().as_str());
        assert_eq!(Ok(edge1), edge2);
    }

    for dir in &CORNER_DIRECTIONS {
        let corner1 = Corner::new(0, 0, *dir);
        let corner2 = Corner::from_str(corner1.to_string().as_str());
        assert_eq!(Ok(corner1), corner2);
    }
}

#[test]
pub fn string_conversion_err_test() {
    let strings = &[
        "useless string",
        "1,bad",
        "1,2,bad",
        "good,bad,ugly",
        "-1,-2,something",
        "a,b,Tile",
        "9999999999999999999999999999999999999999,0,Tile",
    ];

    for s in strings {
        let result1 = Tile::from_str(s);
        let result2 = Edge::from_str(s);
        let result3 = Corner::from_str(s);
        assert!(result1.is_err());
        assert!(result2.is_err());
        assert!(result3.is_err());
    }
}

#[test]
pub fn hashmap_test() {
    let mut map = HashMap::new();

    let edge1 = Edge::new(0, 0, EdgeDirection::East);
    let edge2 = Edge::new(1, 0, EdgeDirection::West);
    let edge3 = Edge::new(3, 3, EdgeDirection::Northeast);

    map.insert(edge1, "Edge 1!");
    map.insert(edge2, "Edge 2!");
    map.insert(edge3, "Edge 3!");

    assert_eq!(map.len(), 2);
}

/// Writes a map as a JSON object whose keys are the text forms of the
/// coordinates.
fn edges_to_json(map: &HashMap<Edge, &str>) -> String {
    let mut object = serde_json::Map::new();
    for (edge, value) in map.iter() {
        object.insert(edge.to_string(), serde_json::Value::String(value.to_string()));
    }
    serde_json::to_string(&serde_json::Value::Object(object)).unwrap()
}

fn object_of(json: &str) -> serde_json::Map<String, serde_json::Value> {
    match serde_json::from_str(json).unwrap() {
        serde_json::Value::Object(object) => object,
        other => panic!("not an object: {}", other),
    }
}

#[test]
pub fn json_test() {
    let mut map: HashMap<Edge, &str> = HashMap::new();

    let edge1 = Edge::new(0, 0, EdgeDirection::East);
    let edge2 = Edge::new(1, 0, EdgeDirection::West);
    let edge3 = Edge::new(3, 3, EdgeDirection::Northeast);

    map.insert(edge1, "Edge 1!");
    map.insert(edge2, "Edge 2!");
    map.insert(edge3, "Edge 3!");

    let s = edges_to_json(&map);
    println!("{}", s);
    let object = object_of(&s);
    let mut map2: HashMap<Edge, &str> = HashMap::new();
    for (key, value) in object.iter() {
        map2.insert(Edge::from_str(key).unwrap(), value.as_str().unwrap());
    }
    assert_eq!(map, map2)
}

#[test]
pub fn big_json_test() {
    let dir_dist = rand::distributions::Uniform::new(0, 6);
    let coord_dist = rand::distributions::Uniform::new(-10, 10);
    let mut rng = thread_rng();

    let mut edges = HashMap::new();
    let mut corners = HashMap::new();
    let mut tiles = HashMap::new();

    for _ in 0..100 {
        let tile = Tile::new(rng.sample(coord_dist), rng.sample(coord_dist));
        let corner = Corner::new(
            rng.sample(coord_dist),
            rng.sample(coord_dist),
            match rng.sample(dir_dist) {
                0 => CornerDirection::Northwest,
                1 => CornerDirection::North,
                2 => CornerDirection::Northeast,
                3 => CornerDirection::Southeast,
                4 => CornerDirection::South,
                _ => CornerDirection::Southwest,
            },
        );
        let edge = Edge::new(
            rng.sample(coord_dist),
            rng.sample(coord_dist),
            match rng.sample(dir_dist) {
                0 => EdgeDirection::Northwest,
                1 => EdgeDirection::Northeast,
                2 => EdgeDirection::East,
                3 => EdgeDirection::Southeast,
                4 => EdgeDirection::Southwest,
                _ => EdgeDirection::West,
            },
        );

        tiles.insert(tile, "TileData!");
        edges.insert(edge, "EdgeData!");
        corners.insert(corner, "CornerData!");
    }

    let mut tile_object = serde_json::Map::new();
    for (tile, value) in tiles.iter() {
        tile_object.insert(tile.to_string(), serde_json::Value::String(value.to_string()));
    }
    let mut corner_object = serde_json::Map::new();
    for (corner, value) in corners.iter() {
        corner_object.insert(corner.to_string(), serde_json::Value::String(value.to_string()));
    }
    let s_tiles = serde_json::to_string(&serde_json::Value::Object(tile_object)).unwrap();
    let s_edges = edges_to_json(&edges);
    let s_corners = serde_json::to_string(&serde_json::Value::Object(corner_object)).unwrap();
    println!("{}\n{}\n{}", s_tiles, s_edges, s_corners);

    let tile_object2 = object_of(&s_tiles);
    let edge_object2 = object_of(&s_edges);
    let corner_object2 = object_of(&s_corners);
    let mut tiles2: HashMap<Tile, &str> = HashMap::new();
    for (key, value) in tile_object2.iter() {
        tiles2.insert(Tile::from_str(key).unwrap(), value.as_str().unwrap());
    }
    let mut edges2: HashMap<Edge, &str> = HashMap::new();
    for (key, value) in edge_object2.iter() {
        edges2.insert(Edge::from_str(key).unwrap(), value.as_str().unwrap());
    }
    let mut corners2: HashMap<Corner, &str> = HashMap::new();
    for (key, value) in corner_object2.iter() {
        corners2.insert(Corner::from_str(key).unwrap(), value.as_str().unwrap());
    }
    assert_eq!(tiles, tiles2);
    assert_eq!(edges, edges2);
    assert_eq!(corners, corners2);
}

#[test]
pub fn canonical_names_of_shared_edges_and_corners() {
    for x in -3..=3 {
        for y in -3..=3 {
            assert_eq!(Edge::new(x, y, EdgeDirection::Southeast), Edge::new(x + 1, y - 1, EdgeDirection::Northwest));
            assert_eq!(Edge::new(x, y, EdgeDirection::Southwest), Edge::new(x, y - 1, EdgeDirection::Northeast));
            assert_eq!(Edge::new(x, y, EdgeDirection::West), Edge::new(x - 1, y, EdgeDirection::East));
            assert_eq!(Corner::new(x, y, CornerDirection::Northwest), Corner::new(x - 1, y, CornerDirection::Northeast));
            assert_eq!(Corner::new(x, y, CornerDirection::Southeast), Corner::new(x + 1, y - 1, CornerDirection::North));
            assert_eq!(Corner::new(x, y, CornerDirection::South), Corner::new(x, y - 1, CornerDirection::Northeast));
            assert_eq!(Corner::new(x, y, CornerDirection::Southwest), Corner::new(x, y - 1, CornerDirection::North));
        }
    }
}

#[test]
pub fn canonical_coordinates_name_themselves() {
    let edge = Edge::new(4, -7, EdgeDirection::West);
    assert_eq!((edge.x, edge.y), (3, -7));
    assert_eq!(edge.to_string(), "3,-7,EdgeEast");
    assert_eq!(Edge::new(edge.x, edge.y, EdgeDirection::East), edge);

    let corner = Corner::new(4, -7, CornerDirection::South);
    assert_eq!((corner.x, corner.y), (4, -8));
    assert_eq!(corner.to_string(), "4,-8,CornerNortheast");
    assert_eq!(Corner::new(corner.x, corner.y, CornerDirection::Northeast), corner);
}

#[test]
pub fn neighbors_of_the_origin_are_the_expected_ones() {
    let tile = Tile::new(0, 0);
    assert_eq!(
        tile.get_tile_neighbors(),
        vec![
            Tile::new(1, 0),
            Tile::new(-1, 0),
            Tile::new(0, 1),
            Tile::new(0, -1),
            Tile::new(-1, 1),
            Tile::new(1, -1),
        ]
    );
    let corner = Corner::new(0, 0, CornerDirection::North);
    assert_eq!(
        corner.get_tile_neighbors(),
        vec![Tile::new(0, 0), Tile::new(-1, 1), Tile::new(0, 1)]
    );
    let edge = Edge::new(0, 0, EdgeDirection::East);
    assert_eq!(edge.get_tile_neighbors(), vec![Tile::new(0, 0), Tile::new(1, 0)]);
    assert_eq!(
        edge.get_corner_neighbors(),
        vec![
            Corner::new(0, 0, CornerDirection::Northeast),
            Corner::new(0, 0, CornerDirection::Southeast),
        ]
    );
}

#[test]
pub fn neighbors_are_distinct_and_mutual() {
    for x in -2..=2 {
        for y in -2..=2 {
            let tile = Tile::new(x, y);
            let around = tile.get_tile_neighbors();
            for (i, a) in around.iter().enumerate() {
                assert!(a.get_tile_neighbors().contains(&tile));
                for b in around.iter().skip(i + 1) {
                    assert_ne!(a, b);
                }
            }
            for corner in tile.get_corner_neighbors() {
                assert!(corner.get_tile_neighbors().contains(&tile));
            }
            for edge in tile.get_edge_neighbors() {
                assert!(edge.get_tile_neighbors().contains(&tile));
            }
        }
    }
}

#[test]
pub fn text_round_trip_with_large_and_negative_components() {
    for (x, y) in [(i32::MIN, i32::MAX), (-1, 1), (2147483647, -2147483648), (10, -10), (0, 0)] {
        let tile = Tile { x, y };
        assert_eq!(Tile::from_str(&tile.to_string()), Ok(tile));
    }
    assert_eq!(Tile { x: i32::MIN, y: 7 }.to_string(), "-2147483648,7,Tile");
    assert_eq!(Tile::from_str("+5,-0,Tile"), Ok(Tile::new(5, 0)));
    assert_eq!(Tile::from_str("007,08,Tile"), Ok(Tile::new(7, 8)));
}

#[test]
pub fn each_parse_error_has_its_input() {
    assert_eq!(Tile::from_str("useless string"), Err(ParseError::FieldCount));
    assert_eq!(Tile::from_str("1,2"), Err(ParseError::FieldCount));
    assert_eq!(Tile::from_str("1,2,Tile,extra"), Err(ParseError::FieldCount));
    assert_eq!(Tile::from_str("a,b,Tile"), Err(ParseError::InvalidX));
    assert_eq!(Tile::from_str(",2,Tile"), Err(ParseError::InvalidX));
    assert_eq!(Tile::from_str("2147483648,2,Tile"), Err(ParseError::InvalidX));
    assert_eq!(Tile::from_str("-2147483649,2,Tile"), Err(ParseError::InvalidX));
    assert_eq!(Tile::from_str("1, 2,Tile"), Err(ParseError::InvalidY));
    assert_eq!(Tile::from_str("1,-,Tile"), Err(ParseError::InvalidY));
    assert_eq!(Tile::from_str("1,2,tile"), Err(ParseError::InvalidLabel));
    assert_eq!(Tile::from_str("1,2,EdgeEast"), Err(ParseError::InvalidLabel));
    assert_eq!(Edge::from_str("1,2,Tile"), Err(ParseError::InvalidLabel));
    assert_eq!(Edge::from_str("1,2,EdgeWest"), Err(ParseError::InvalidLabel));
    assert_eq!(Corner::from_str("1,2,CornerSouth"), Err(ParseError::InvalidLabel));
    assert_eq!(
        ParseError::FieldCount.describe("1,2"),
        "'1,2' does not have three fields separated by commas"
    );
    assert_eq!(
        ParseError::InvalidX.describe("a,b,Tile"),
        "'a,b,Tile': the first field is not a valid integer"
    );
}

#[test]
pub fn labels_and_construction_from_labels() {
    assert_eq!(Tile::new(3, 4).label(), "Tile");
    assert_eq!(Edge::new(0, 0, EdgeDirection::Southeast).label(), "EdgeNorthwest");
    assert_eq!(Corner::new(0, 0, CornerDirection::Southwest).label(), "CornerNorth");
    assert_eq!(<Tile as HexCoord>::new(3, 4, "Tile"), Ok(Tile::new(3, 4)));
    assert_eq!(
        <Edge as HexCoord>::new(3, 4, "EdgeEast"),
        Ok(Edge::new(3, 4, EdgeDirection::East))
    );
    assert_eq!(
        <Corner as HexCoord>::new(3, 4, "CornerNortheast"),
        Ok(Corner::new(3, 4, CornerDirection::Northeast))
    );
    assert_eq!(<Corner as HexCoord>::new(3, 4, "North"), Err(ParseError::InvalidLabel));
}

#[test]
pub fn coordinates_at_the_ends_of_the_range() {
    assert!(Tile::new(0, 0).is_interior());
    assert!(Tile::new(i32::MAX - 1, i32::MIN + 1).is_interior());
    assert!(!Tile::new(i32::MAX, 0).is_interior());
    assert!(!Tile::new(0, i32::MIN).is_interior());
    assert!(!Edge { x: i32::MIN, y: 0, dir: catan_lib::hex_coordinates::CanonicalEdgeDir::East }
        .is_interior());
    assert!(Corner::new(5, 5, CornerDirection::South).is_interior());

    assert_eq!(Edge::checked_new(i32::MIN, 0, EdgeDirection::West), None);
    assert_eq!(Edge::checked_new(0, i32::MIN, EdgeDirection::Southwest), None);
    assert_eq!(Edge::checked_new(i32::MAX, 0, EdgeDirection::Southeast), None);
    assert_eq!(
        Edge::checked_new(i32::MIN, i32::MIN, EdgeDirection::East),
        Some(Edge::new(i32::MIN, i32::MIN, EdgeDirection::East))
    );
    assert_eq!(
        Edge::checked_new(i32::MIN + 1, 0, EdgeDirection::West),
        Some(Edge::new(i32::MIN, 0, EdgeDirection::East))
    );
    assert_eq!(Corner::checked_new(i32::MIN, 0, CornerDirection::Northwest), None);
    assert_eq!(Corner::checked_new(0, i32::MIN, CornerDirection::South), None);
    assert_eq!(Corner::checked_new(0, i32::MIN, CornerDirection::Southwest), None);
    assert_eq!(Corner::checked_new(i32::MAX, 0, CornerDirection::Southeast), None);
    assert_eq!(
        Corner::checked_new(i32::MAX, i32::MAX, CornerDirection::North),
        Some(Corner::new(i32::MAX, i32::MAX, CornerDirection::North))
    );
    assert_eq!(
        Corner::checked_new(3, 3, CornerDirection::Southeast),
        Some(Corner::new(4, 2, CornerDirection::North))
    );
}
