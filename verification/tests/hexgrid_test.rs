use catan_lib::hex_coordinates::{Corner, CornerDirection, Edge, EdgeDirection, HexCoord, Tile};
use catan_lib::hexgrid::HexGrid;

#[test]
pub fn tile_neighbor_test() {
    let mut grid: HexGrid<i32, &str, bool> = HexGrid::new();

    let tile1 = Tile::new(0, 0);
    let tile2 = Tile::new(1, 0);
    let tile3 = Tile::new(-1, 0);

    grid.tiles.insert(tile1, 1);
    assert_eq!(grid.get_tile_neighbors(&tile1).len(), 0);

    grid.tiles.insert(tile2, 2);
    assert_eq!(grid.get_tile_neighbors(&tile1).len(), 1);

    grid.tiles.insert(tile3, 3);
    assert_eq!(grid.get_tile_neighbors(&tile1).len(), 2);
}

#[test]
pub fn edge_neighbor_test() {
    let mut grid: HexGrid<i32, &str, bool> = HexGrid::new();

    let edge1 = Edge::new(0, 0, EdgeDirection::East);
    let edge2 = Edge::new(0, 0, EdgeDirection::Northeast);
    let edge3 = Edge::new(0, 0, EdgeDirection::Southeast);

    grid.edges.insert(edge1, "1");
    assert_eq!(grid.get_edge_neighbors(&edge1).len(), 0);

    grid.edges.insert(edge2, "2");
    assert_eq!(grid.get_edge_neighbors(&edge1).len(), 1);

    grid.edges.insert(edge3, "3");
    assert_eq!(grid.get_edge_neighbors(&edge1).len(), 2);
}

#[test]
pub fn corner_neighbor_test() {
    let mut grid: HexGrid<i32, &str, bool> = HexGrid::new();

    let corner1 = Corner::new(0, 0, CornerDirection::North);
    let corner2 = Corner::new(0, 0, CornerDirection::Northeast);
    let corner3 = Corner::new(0, 0, CornerDirection::Northwest);

    grid.corners.insert(corner1, true);
    assert_eq!(grid.get_corner_neighbors(&corner1).len(), 0);

    grid.corners.insert(corner2, false);
    assert_eq!(grid.get_corner_neighbors(&corner1).len(), 1);

    grid.corners.insert(corner3, false);
    assert_eq!(grid.get_corner_neighbors(&corner1).len(), 2);
}

fn coords_to_json<K>(keys: Vec<K>, text: impl Fn(&K) -> String, value: impl Fn(&K) -> serde_json::Value) -> serde_json::Value {
    let mut object = serde_json::Map::new();
    for key in keys.iter() {
        object.insert(text(key), value(key));
    }
    serde_json::Value::Object(object)
}

#[test]
pub fn serde_test() {
    let mut grid: HexGrid<i32, &str, bool> = HexGrid::new();
    grid.tiles.insert(Tile::new(0, 0), 0);
    grid.tiles.insert(Tile::new(1, 0), 1);
    grid.tiles.insert(Tile::new(-1, 0), 2);

    grid.edges.insert(Edge::new(0, 0, EdgeDirection::East), "0");
    grid.edges.insert(Edge::new(0, 0, EdgeDirection::Northeast), "1");
    grid.edges.insert(Edge::new(0, 0, EdgeDirection::Southeast), "2");

    grid.corners.insert(Corner::new(0, 0, CornerDirection::North), false);
    grid.corners.insert(Corner::new(0, 0, CornerDirection::Northeast), true);
    grid.corners.insert(Corner::new(0, 0, CornerDirection::Northwest), true);

    let mut whole = serde_json::Map::new();
    whole.insert(
        "tiles".to_string(),
        coords_to_json(
            grid.tiles.keys(),
            |tile| tile.to_string(),
            |tile| serde_json::Value::from(*grid.tiles.get(tile).unwrap()),
        ),
    );
    whole.insert(
        "edges".to_string(),
        coords_to_json(
            grid.edges.keys(),
            |edge| edge.to_string(),
            |edge| serde_json::Value::from(*grid.edges.get(edge).unwrap()),
        ),
    );
    whole.insert(
        "corners".to_string(),
        coords_to_json(
            grid.corners.keys(),
            |corner| corner.to_string(),
            |corner| serde_json::Value::from(*grid.corners.get(corner).unwrap()),
        ),
    );
    let s = serde_json::to_string(&serde_json::Value::Object(whole)).unwrap();

    let parsed: serde_json::Value = serde_json::from_str(&s).unwrap();
    let mut grid2: HexGrid<i32, &str, bool> = HexGrid::new();
    for (key, value) in parsed["tiles"].as_object().unwrap() {
        grid2.tiles.insert(Tile::from_str(key).unwrap(), value.as_i64().unwrap() as i32);
    }
    for (key, value) in parsed["edges"].as_object().unwrap() {
        grid2.edges.insert(Edge::from_str(key).unwrap(), value.as_str().unwrap());
    }
    for (key, value) in parsed["corners"].as_object().unwrap() {
        grid2.corners.insert(Corner::from_str(key).unwrap(), value.as_bool().unwrap());
    }
    assert_eq!(grid, grid2);
}

#[test]
pub fn map_operations_on_each_kind_of_coordinate() {
    let mut grid: HexGrid<i32, i32, i32> = HexGrid::new();
    let tile = Tile::new(-5, 9);
    let edge = Edge::new(2, 2, EdgeDirection::West);
    let corner = Corner::new(2, 2, CornerDirection::South);

    assert_eq!(grid.tiles.insert(tile, 1), None);
    assert_eq!(grid.tiles.insert(tile, 2), Some(1));
    assert_eq!(grid.tiles.get(&tile), Some(&2));
    assert!(grid.tiles.contains_key(&tile));
    assert!(!grid.tiles.contains_key(&Tile::new(9, -5)));
    assert_eq!(grid.tiles.len(), 1);
    *grid.tiles.get_mut(&tile).unwrap() = 3;
    assert_eq!(grid.tiles.get(&tile), Some(&3));
    assert_eq!(grid.tiles.get_mut(&Tile::new(0, 0)), None);
    assert_eq!(grid.tiles.keys(), vec![tile]);
    assert_eq!(grid.tiles.remove(&tile), Some(3));
    assert_eq!(grid.tiles.remove(&tile), None);
    assert!(grid.tiles.is_empty());

    assert_eq!(grid.edges.insert(edge, 1), None);
    assert_eq!(grid.edges.insert(Edge::new(1, 2, EdgeDirection::East), 2), Some(1));
    assert_eq!(grid.edges.get(&edge), Some(&2));
    assert_eq!(grid.edges.get(&Edge::new(1, 2, EdgeDirection::Northeast)), None);
    *grid.edges.get_mut(&edge).unwrap() += 5;
    assert_eq!(grid.edges.get(&edge), Some(&7));
    assert_eq!(grid.edges.keys(), vec![edge]);
    assert_eq!(grid.edges.remove(&edge), Some(7));
    assert!(!grid.edges.contains_key(&edge));

    assert_eq!(grid.corners.insert(corner, 1), None);
    assert_eq!(grid.corners.insert(Corner::new(2, 1, CornerDirection::Northeast), 2), Some(1));
    assert_eq!(grid.corners.get(&corner), Some(&2));
    *grid.corners.get_mut(&corner).unwrap() = 8;
    assert_eq!(grid.corners.keys(), vec![corner]);
    grid.corners.clear();
    assert_eq!(grid.corners.get(&corner), None);
}

#[test]
pub fn keys_list_every_entry_once() {
    let mut grid: HexGrid<i32, i32, i32> = HexGrid::new();
    let mut expected_edges = std::collections::HashSet::new();
    let mut expected_corners = std::collections::HashSet::new();
    for x in -3..=3 {
        for y in -3..=3 {
            let tile = Tile::new(x, y);
            grid.tiles.insert(tile, x * 10 + y);
            for edge in tile.get_edge_neighbors() {
                grid.edges.insert(edge, 0);
                expected_edges.insert(edge);
            }
            for corner in tile.get_corner_neighbors() {
                grid.corners.insert(corner, 0);
                expected_corners.insert(corner);
            }
        }
    }
    let tiles = grid.tiles.keys();
    assert_eq!(tiles.len(), 49);
    assert_eq!(tiles.iter().collect::<std::collections::HashSet<_>>().len(), 49);
    for tile in tiles {
        assert_eq!(grid.tiles.get(&tile), Some(&(tile.x * 10 + tile.y)));
    }
    let edges = grid.edges.keys();
    assert_eq!(edges.len(), expected_edges.len());
    assert_eq!(edges.into_iter().collect::<std::collections::HashSet<_>>(), expected_edges);
    let corners = grid.corners.keys();
    assert_eq!(corners.len(), expected_corners.len());
    assert_eq!(corners.into_iter().collect::<std::collections::HashSet<_>>(), expected_corners);
}

#[test]
pub fn neighbors_come_with_their_coordinates_in_order() {
    let mut grid: HexGrid<i32, &str, bool> = HexGrid::new();
    grid.tiles.insert(Tile::new(0, 1), 10);
    grid.tiles.insert(Tile::new(1, 0), 20);
    grid.tiles.insert(Tile::new(5, 5), 30);
    let found = grid.get_tile_neighbors(&Tile::new(0, 0));
    assert_eq!(found, vec![(Tile::new(1, 0), &20), (Tile::new(0, 1), &10)]);

    // A corner on the rim of the stored tiles has two of its three tiles.
    let corner = Corner::new(0, 0, CornerDirection::Northeast);
    assert_eq!(
        grid.get_tile_neighbors(&corner),
        vec![(Tile::new(0, 1), &10), (Tile::new(1, 0), &20)]
    );
    grid.tiles.insert(Tile::new(0, 0), 40);
    assert_eq!(grid.get_tile_neighbors(&corner).len(), 3);
}

#[test]
pub fn removing_a_tile_leaves_its_edges_and_corners() {
    let mut grid: HexGrid<i32, &str, bool> = HexGrid::new();
    let tile = Tile::new(0, 0);
    grid.tiles.insert(tile, 1);
    grid.edges.insert(Edge::new(0, 0, EdgeDirection::East), "e");
    grid.corners.insert(Corner::new(0, 0, CornerDirection::North), true);
    grid.tiles.remove(&tile);
    assert_eq!(grid.get_edge_neighbors(&tile).len(), 1);
    assert_eq!(grid.get_corner_neighbors(&tile).len(), 1);
}
