//! What holds of the coordinate system as a whole: every edge and corner has
//! one canonical name, whichever tile it is named from, and every coordinate
//! has a fixed number of distinct neighbors of each kind.

use vstd::prelude::*;
use crate::coord_text::{coord_text, parse_fields, parse_text, ParseError};
use crate::hex_coordinates::{
    within_margin, CanonicalCornerDir, CanonicalEdgeDir, Corner, CornerDirection, Edge,
    EdgeDirection, HexCoord, Tile,
};
use crate::text::{comma_from, format_int, is_comma_from, lemma_parse_format_int};

verus! {

/// A tile has one name only: naming it by its coordinate gives that
/// coordinate back.
pub proof fn lemma_tile_canonical_idempotent(x: int, y: int)
    ensures
        ({
            let tile = Tile::at(x, y);
            Tile::at(tile.x as int, tile.y as int) == tile
        }),
{
}

/// Naming an edge by its canonical coordinate gives that coordinate back:
/// canonicalization is idempotent.
pub proof fn lemma_edge_canonical_idempotent(x: int, y: int, dir: EdgeDirection)
    ensures
        ({
            let edge = Edge::at(x, y, dir);
            Edge::at(edge.x as int, edge.y as int, edge.dir.direction()) == edge
        }),
{
}

/// Naming a corner by its canonical coordinate gives that coordinate back:
/// canonicalization is idempotent.
pub proof fn lemma_corner_canonical_idempotent(x: int, y: int, dir: CornerDirection)
    ensures
        ({
            let corner = Corner::at(x, y, dir);
            Corner::at(corner.x as int, corner.y as int, corner.dir.direction()) == corner
        }),
{
}

/// An edge has the same canonical coordinate from either of the two tiles
/// that it separates.
pub proof fn lemma_edge_shared(x: int, y: int, dir: EdgeDirection)
    ensures
        ({
            let (dx, dy) = dir.step();
            Edge::at(x, y, dir) == Edge::at(x + dx, y + dy, dir.opposite())
        }),
{
}

/// A corner has the same canonical coordinate from each of the three tiles
/// that meet at it.
pub proof fn lemma_corner_shared(x: int, y: int, dir: CornerDirection)
    ensures
        ({
            let ((ax, ay), (bx, by)) = dir.touching();
            &&& Corner::at(x, y, dir) == Corner::at(x + ax, y + ay, dir.turn())
            &&& Corner::at(x, y, dir) == Corner::at(x + bx, y + by, dir.turn().turn())
        }),
{
}

/// The two tiles on either side of the edge of tile `(x, y)` in direction `dir`.
pub open spec fn edge_tiles(x: int, y: int, dir: EdgeDirection) -> Set<(int, int)> {
    let (dx, dy) = dir.step();
    set![(x, y), (x + dx, y + dy)]
}

/// The three tiles that meet at the corner of tile `(x, y)` in direction `dir`.
pub open spec fn corner_tiles(x: int, y: int, dir: CornerDirection) -> Set<(int, int)> {
    let ((ax, ay), (bx, by)) = dir.touching();
    set![(x, y), (x + ax, y + ay), (x + bx, y + by)]
}

/// Two names give the same canonical edge coordinate exactly when they name
/// the same edge, that is, when they separate the same two tiles.
pub proof fn lemma_edge_identity(
    x1: int,
    y1: int,
    dir1: EdgeDirection,
    x2: int,
    y2: int,
    dir2: EdgeDirection,
)
    requires
        Edge::representable(x1, y1, dir1),
        Edge::representable(x2, y2, dir2),
    ensures
        Edge::at(x1, y1, dir1) == Edge::at(x2, y2, dir2) <==> edge_tiles(x1, y1, dir1)
            == edge_tiles(x2, y2, dir2),
{
    let a = edge_tiles(x1, y1, dir1);
    let b = edge_tiles(x2, y2, dir2);
    let (dx1, dy1) = dir1.step();
    let (dx2, dy2) = dir2.step();
    if Edge::at(x1, y1, dir1) == Edge::at(x2, y2, dir2) {
        assert(a =~= b);
    }
    if a == b {
        assert(a.contains((x1, y1)));
        assert(a.contains((x1 + dx1, y1 + dy1)));
        assert(b.contains((x2, y2)));
        assert(b.contains((x2 + dx2, y2 + dy2)));
    }
}

/// Two names give the same canonical corner coordinate exactly when they name
/// the same corner, that is, when the same three tiles meet there.
pub proof fn lemma_corner_identity(
    x1: int,
    y1: int,
    dir1: CornerDirection,
    x2: int,
    y2: int,
    dir2: CornerDirection,
)
    requires
        Corner::representable(x1, y1, dir1),
        Corner::representable(x2, y2, dir2),
    ensures
        Corner::at(x1, y1, dir1) == Corner::at(x2, y2, dir2) <==> corner_tiles(x1, y1, dir1)
            == corner_tiles(x2, y2, dir2),
{
    let a = corner_tiles(x1, y1, dir1);
    let b = corner_tiles(x2, y2, dir2);
    let ((ax1, ay1), (bx1, by1)) = dir1.touching();
    let ((ax2, ay2), (bx2, by2)) = dir2.touching();
    if Corner::at(x1, y1, dir1) == Corner::at(x2, y2, dir2) {
        assert(a =~= b);
    }
    if a == b {
        assert(a.contains((x1, y1)));
        assert(a.contains((x1 + ax1, y1 + ay1)));
        assert(a.contains((x1 + bx1, y1 + by1)));
        assert(b.contains((x2, y2)));
        assert(b.contains((x2 + ax2, y2 + ay2)));
        assert(b.contains((x2 + bx2, y2 + by2)));
    }
}

/// A tile has exactly six tile neighbors, six edges and six corners, all
/// distinct.
pub proof fn lemma_tile_neighbor_counts(tile: Tile)
    requires
        tile.interior(),
    ensures
        tile.tile_neighbors().len() == 6,
        tile.tile_neighbors().no_duplicates(),
        tile.edge_neighbors().len() == 6,
        tile.edge_neighbors().no_duplicates(),
        tile.corner_neighbors().len() == 6,
        tile.corner_neighbors().no_duplicates(),
{
}

/// An edge has exactly two tiles beside it, four edges that share an end with
/// it and two corners at its ends, all distinct.
pub proof fn lemma_edge_neighbor_counts(edge: Edge)
    requires
        edge.interior(),
    ensures
        edge.tile_neighbors().len() == 2,
        edge.tile_neighbors().no_duplicates(),
        edge.edge_neighbors().len() == 4,
        edge.edge_neighbors().no_duplicates(),
        edge.corner_neighbors().len() == 2,
        edge.corner_neighbors().no_duplicates(),
{
}

/// A corner has exactly three tiles around it, three edges that end in it and
/// three corners one edge away, all distinct.
pub proof fn lemma_corner_neighbor_counts(corner: Corner)
    requires
        corner.interior(),
    ensures
        corner.tile_neighbors().len() == 3,
        corner.tile_neighbors().no_duplicates(),
        corner.edge_neighbors().len() == 3,
        corner.edge_neighbors().no_duplicates(),
        corner.corner_neighbors().len() == 3,
        corner.corner_neighbors().no_duplicates(),
{
}

/// Adjacency of tiles is symmetric.
pub proof fn lemma_tile_adjacency_symmetric(a: Tile, b: Tile)
    ensures
        a.adjacent(b) == b.adjacent(a),
{
}

/// The tile neighbors of a tile are the tiles adjacent to it.
pub proof fn lemma_tile_neighbors_adjacent(tile: Tile, other: Tile)
    requires
        tile.interior(),
    ensures
        tile.tile_neighbors().contains(other) <==> tile.adjacent(other),
{
    let n = tile.tile_neighbors();
    if tile.adjacent(other) {
        let dx = other.x - tile.x;
        let dy = other.y - tile.y;
        if dx == 1 && dy == 0 {
            assert(n[0] == other);
        } else if dx == -1 && dy == 0 {
            assert(n[1] == other);
        } else if dx == 0 && dy == 1 {
            assert(n[2] == other);
        } else if dx == 0 && dy == -1 {
            assert(n[3] == other);
        } else if dx == -1 && dy == 1 {
            assert(n[4] == other);
        } else {
            assert(n[5] == other);
        }
    }
}

/// A tile lies around a corner exactly when that corner is one of the
/// tile's six corners.
pub proof fn lemma_corner_of_tile(tile: Tile, corner: Corner)
    requires
        within_margin(tile.x as int, tile.y as int, 2),
        corner.interior(),
    ensures
        corner.tile_neighbors().contains(tile) <==> tile.corner_neighbors().contains(corner),
{
    let around = corner.tile_neighbors();
    let corners = tile.corner_neighbors();
    if around.contains(tile) {
        let i = choose|i: int| 0 <= i < around.len() && around[i] == tile;
        assert(corners[0] == corner || corners[1] == corner || corners[2] == corner
            || corners[3] == corner || corners[4] == corner || corners[5] == corner);
    }
    if corners.contains(corner) {
        let i = choose|i: int| 0 <= i < corners.len() && corners[i] == corner;
        assert(around[0] == tile || around[1] == tile || around[2] == tile);
    }
}

/// A tile lies beside an edge exactly when that edge is one of the tile's
/// six edges.
pub proof fn lemma_edge_of_tile(tile: Tile, edge: Edge)
    requires
        within_margin(tile.x as int, tile.y as int, 2),
        edge.interior(),
    ensures
        edge.tile_neighbors().contains(tile) <==> tile.edge_neighbors().contains(edge),
{
    let beside = edge.tile_neighbors();
    let edges = tile.edge_neighbors();
    if beside.contains(tile) {
        let i = choose|i: int| 0 <= i < beside.len() && beside[i] == tile;
        assert(edges[0] == edge || edges[1] == edge || edges[2] == edge || edges[3] == edge
            || edges[4] == edge || edges[5] == edge);
    }
    if edges.contains(edge) {
        let i = choose|i: int| 0 <= i < edges.len() && edges[i] == edge;
        assert(beside[0] == tile || beside[1] == tile);
    }
}


/// A corner lies at an end of an edge exactly when that edge is one of the
/// three edges that end in the corner.
pub proof fn lemma_corner_of_edge(edge: Edge, corner: Corner)
    requires
        within_margin(edge.x as int, edge.y as int, 2),
        corner.interior(),
    ensures
        edge.corner_neighbors().contains(corner) <==> corner.edge_neighbors().contains(edge),
{
    let ends = edge.corner_neighbors();
    let edges = corner.edge_neighbors();
    if ends.contains(corner) {
        let i = choose|i: int| 0 <= i < ends.len() && ends[i] == corner;
        assert(edges[0] == edge || edges[1] == edge || edges[2] == edge);
    }
    if edges.contains(edge) {
        let i = choose|i: int| 0 <= i < edges.len() && edges[i] == edge;
        assert(ends[0] == corner || ends[1] == corner);
    }
}

/// Two edges share an end either both ways or not at all.
pub proof fn lemma_edge_adjacency_symmetric(a: Edge, b: Edge)
    requires
        within_margin(a.x as int, a.y as int, 2),
        b.interior(),
    ensures
        a.edge_neighbors().contains(b) <==> b.edge_neighbors().contains(a),
{
    let from_a = a.edge_neighbors();
    let from_b = b.edge_neighbors();
    if from_a.contains(b) {
        let i = choose|i: int| 0 <= i < from_a.len() && from_a[i] == b;
        assert(from_b[0] == a || from_b[1] == a || from_b[2] == a || from_b[3] == a);
    }
    if from_b.contains(a) {
        let i = choose|i: int| 0 <= i < from_b.len() && from_b[i] == a;
        assert(from_a[0] == b || from_a[1] == b || from_a[2] == b || from_a[3] == b);
    }
}

/// Two corners are one edge apart either both ways or not at all.
pub proof fn lemma_corner_adjacency_symmetric(a: Corner, b: Corner)
    requires
        within_margin(a.x as int, a.y as int, 2),
        b.interior(),
    ensures
        a.corner_neighbors().contains(b) <==> b.corner_neighbors().contains(a),
{
    let from_a = a.corner_neighbors();
    let from_b = b.corner_neighbors();
    if from_a.contains(b) {
        let i = choose|i: int| 0 <= i < from_a.len() && from_a[i] == b;
        assert(from_b[0] == a || from_b[1] == a || from_b[2] == a);
    }
    if from_b.contains(a) {
        let i = choose|i: int| 0 <= i < from_b.len() && from_b[i] == a;
        assert(from_a[0] == b || from_a[1] == b || from_a[2] == b);
    }
}

/// Where the first comma at or after `from` stands at `i`, that is the
/// position that is found.
proof fn lemma_comma_found(s: Seq<char>, from: int, i: int)
    requires
        is_comma_from(s, from, i),
    ensures
        comma_from(s, from) == Some(i),
{
    let found = choose|j: int| is_comma_from(s, from, j);
    assert(found == i);
}

/// Where there is no comma at or after `from`, none is found.
proof fn lemma_comma_missing(s: Seq<char>, from: int)
    requires
        forall|k: int| from <= k < s.len() ==> s[k] != ',',
    ensures
        comma_from(s, from) is None,
{
}

/// The text form made of two integers and a label without a comma has these
/// as its three fields.
pub proof fn lemma_fields_round_trip(x: i32, y: i32, label: Seq<char>)
    requires
        forall|k: int| 0 <= k < label.len() ==> label[k] != ',',
    ensures
        parse_fields(coord_text(x, y, label)) == Ok::<(i32, i32, Seq<char>), ParseError>((x, y, label)),
{
    let first_field = format_int(x as int);
    let second_field = format_int(y as int);
    let text = coord_text(x, y, label);
    let first = first_field.len() as int;
    let second = first + 1 + second_field.len();
    lemma_parse_format_int(x as int);
    lemma_parse_format_int(y as int);
    assert(text.len() == second + 1 + label.len());
    assert forall|k: int| 0 <= k < first implies text[k] == first_field[k] by {}
    assert(text[first] == ',');
    assert forall|k: int| first + 1 <= k < second implies text[k] == second_field[k - first - 1] by {}
    assert(text[second] == ',');
    assert forall|k: int| second + 1 <= k < text.len() implies text[k] == label[k - second - 1] by {}
    lemma_comma_found(text, 0, first);
    lemma_comma_found(text, first + 1, second);
    lemma_comma_missing(text, second + 1);
    assert(text.subrange(0, first) =~= first_field);
    assert(text.subrange(first + 1, second) =~= second_field);
    assert(text.subrange(second + 1, text.len() as int) =~= label);
}

/// Reading the text form of a tile gives the tile back.
pub proof fn lemma_tile_round_trip(tile: Tile)
    ensures
        parse_text::<Tile>(tile.text()) == Ok::<Tile, ParseError>(tile),
{
    reveal_strlit("Tile");
    lemma_fields_round_trip(tile.x, tile.y, tile.label_text());
}

/// Reading the text form of an edge gives the edge back.
pub proof fn lemma_edge_round_trip(edge: Edge)
    ensures
        parse_text::<Edge>(edge.text()) == Ok::<Edge, ParseError>(edge),
{
    reveal_strlit("EdgeNorthwest");
    reveal_strlit("EdgeNortheast");
    reveal_strlit("EdgeEast");
    let label = edge.label_text();
    assert(CanonicalEdgeDir::parse(label) == Some(edge.dir)) by {
        assert("EdgeNorthwest"@.len() != "EdgeEast"@.len());
        assert("EdgeNortheast"@.len() != "EdgeEast"@.len());
        assert("EdgeNorthwest"@[9] != "EdgeNortheast"@[9]);
    }
    lemma_fields_round_trip(edge.x, edge.y, label);
}

/// Reading the text form of a corner gives the corner back.
pub proof fn lemma_corner_round_trip(corner: Corner)
    ensures
        parse_text::<Corner>(corner.text()) == Ok::<Corner, ParseError>(corner),
{
    reveal_strlit("CornerNorth");
    reveal_strlit("CornerNortheast");
    let label = corner.label_text();
    assert(CanonicalCornerDir::parse(label) == Some(corner.dir)) by {
        assert("CornerNorth"@.len() != "CornerNortheast"@.len());
    }
    lemma_fields_round_trip(corner.x, corner.y, label);
}

} // verus!
