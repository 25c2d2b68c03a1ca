//! Coordinates of the tiles, edges and corners of an infinite hex tiling.
//!
//! Tiles are addressed by axial coordinates. An edge is shared by two tiles and
//! a corner by three, so each of them can be named from several tiles; the
//! constructors reduce every such name to one canonical representative.

use vstd::prelude::*;
use vstd::string::StringExecFns;
use crate::coord_text::{coord_text, format_coord, parse_coord, parse_text, same_text, ParseError};

verus! {

/// One of the six corners of a tile, named relative to that tile.
#[derive(Debug, Copy, Clone, Eq, PartialEq, Hash, Structural)]
pub enum CornerDirection {
    Northwest,
    North,
    Northeast,
    Southeast,
    South,
    Southwest,
}

/// One of the six edges of a tile, named relative to that tile.
#[derive(Debug, Copy, Clone, Eq, PartialEq, Hash, Structural)]
pub enum EdgeDirection {
    Northwest,
    Northeast,
    East,
    Southeast,
    Southwest,
    West,
}

/// The two corner directions that canonical corner coordinates use.
#[derive(Debug, Copy, Clone, Eq, PartialEq, Hash, Structural)]
pub enum CanonicalCornerDir {
    North,
    Northeast,
}

/// The three edge directions that canonical edge coordinates use.
#[derive(Debug, Copy, Clone, Eq, PartialEq, Hash, Structural)]
pub enum CanonicalEdgeDir {
    Northwest,
    Northeast,
    East,
}

/// Whether `x` and `y` keep a distance of at least `margin` from both ends of
/// the `i32` range, so that `margin` unit steps from them stay representable.
pub open spec fn within_margin(x: int, y: int, margin: int) -> bool {
    &&& i32::MIN + margin <= x <= i32::MAX - margin
    &&& i32::MIN + margin <= y <= i32::MAX - margin
}

/// What the three coordinate families have in common: each names the tiles,
/// edges and corners that touch it.
///
/// The neighbor functions step to adjacent coordinates, so they ask that the
/// coordinate lies strictly inside the representable square (`interior`).
pub trait HexCoord: Sized {
    /// The coordinate is at least one step away from the ends of the `i32` range.
    spec fn interior(&self) -> bool;

    /// The tiles that touch this coordinate, in a fixed order.
    spec fn tile_neighbors(&self) -> Seq<Tile>;

    /// The edges that touch this coordinate, in a fixed order.
    spec fn edge_neighbors(&self) -> Seq<Edge>;

    /// The corners that touch this coordinate, in a fixed order.
    spec fn corner_neighbors(&self) -> Seq<Corner>;

    /// The label that the text form of this coordinate ends in.
    spec fn label_text(&self) -> Seq<char>;

    /// The coordinate with the components `x` and `y` whose label is
    /// `label`, if `label` is a label of this family.
    spec fn from_label(x: i32, y: i32, label: Seq<char>) -> Option<Self>;

    /// Whether the coordinate lies strictly inside the representable square,
    /// as the neighbor functions ask.
    fn is_interior(&self) -> (inside: bool)
        ensures
            inside == self.interior(),
    ;

    /// The label that the text form of this coordinate ends in.
    fn label(&self) -> (label: String)
        ensures
            label@ == self.label_text(),
    ;

    /// The coordinate with the components `x` and `y` whose label is
    /// `label`, if `label` is a label of this family.
    fn new(x: i32, y: i32, label: &str) -> (result: Result<Self, ParseError>)
        ensures
            match result {
                Ok(coord) => Self::from_label(x, y, label@) == Some(coord),
                Err(error) => error == ParseError::InvalidLabel && Self::from_label(x, y, label@)
                    is None,
            },
    ;

    /// The tiles that touch this coordinate, in a fixed order.
    fn get_tile_neighbors(&self) -> (neighbors: Vec<Tile>)
        requires
            self.interior(),
        ensures
            neighbors@ == self.tile_neighbors(),
    ;

    /// The edges that touch this coordinate, in a fixed order.
    fn get_edge_neighbors(&self) -> (neighbors: Vec<Edge>)
        requires
            self.interior(),
        ensures
            neighbors@ == self.edge_neighbors(),
    ;

    /// The corners that touch this coordinate, in a fixed order.
    fn get_corner_neighbors(&self) -> (neighbors: Vec<Corner>)
        requires
            self.interior(),
        ensures
            neighbors@ == self.corner_neighbors(),
    ;
}

/// The axial coordinate of one tile.
#[derive(Debug, Copy, Clone, Eq, PartialEq, Hash, Structural)]
pub struct Tile {
    pub x: i32,
    pub y: i32,
}

impl Tile {
    /// The tile with the axial coordinates `(x, y)`.
    pub open spec fn at(x: int, y: int) -> Tile {
        Tile { x: x as i32, y: y as i32 }
    }

    /// Two tiles are adjacent when they share an edge.
    pub open spec fn adjacent(self, other: Tile) -> bool {
        let dx = other.x - self.x;
        let dy = other.y - self.y;
        ||| dx == 1 && dy == 0
        ||| dx == -1 && dy == 0
        ||| dx == 0 && dy == 1
        ||| dx == 0 && dy == -1
        ||| dx == -1 && dy == 1
        ||| dx == 1 && dy == -1
    }

    /// The tile with the axial coordinates `(x, y)`.
    pub fn new(x: i32, y: i32) -> (tile: Tile)
        ensures
            tile == (Tile { x, y }),
    {
        Tile { x, y }
    }

    /// The text form of the tile: `x,y,Tile`.
    pub open spec fn text(self) -> Seq<char> {
        coord_text(self.x, self.y, self.label_text())
    }

    /// The text form of the tile: `x,y,Tile`.
    pub fn to_string(&self) -> (text: String)
        ensures
            text@ == self.text(),
    {
        format_coord(self.x, self.y, "Tile")
    }

    /// Reads the text form of a tile.
    pub fn from_str(s: &str) -> (result: Result<Tile, ParseError>)
        ensures
            result == parse_text::<Tile>(s@),
    {
        parse_coord::<Tile>(s)
    }
}

impl HexCoord for Tile {
    open spec fn interior(&self) -> bool {
        within_margin(self.x as int, self.y as int, 1)
    }

    open spec fn label_text(&self) -> Seq<char> {
        "Tile"@
    }

    open spec fn from_label(x: i32, y: i32, label: Seq<char>) -> Option<Tile> {
        if label == "Tile"@ {
            Some(Tile { x, y })
        } else {
            None
        }
    }

    fn is_interior(&self) -> (inside: bool) {
        i32::MIN < self.x && self.x < i32::MAX && i32::MIN < self.y && self.y < i32::MAX
    }

    fn label(&self) -> (label: String) {
        String::from_str("Tile")
    }

    fn new(x: i32, y: i32, label: &str) -> (result: Result<Tile, ParseError>) {
        if same_text(label, "Tile") {
            Ok(Tile { x, y })
        } else {
            Err(ParseError::InvalidLabel)
        }
    }

    open spec fn tile_neighbors(&self) -> Seq<Tile> {
        seq![
            Tile::at(self.x + 1, self.y as int),
            Tile::at(self.x - 1, self.y as int),
            Tile::at(self.x as int, self.y + 1),
            Tile::at(self.x as int, self.y - 1),
            Tile::at(self.x - 1, self.y + 1),
            Tile::at(self.x + 1, self.y - 1),
        ]
    }

    open spec fn edge_neighbors(&self) -> Seq<Edge> {
        seq![
            Edge::at(self.x as int, self.y as int, EdgeDirection::Northwest),
            Edge::at(self.x as int, self.y as int, EdgeDirection::Northeast),
            Edge::at(self.x as int, self.y as int, EdgeDirection::East),
            Edge::at(self.x as int, self.y as int, EdgeDirection::Southeast),
            Edge::at(self.x as int, self.y as int, EdgeDirection::Southwest),
            Edge::at(self.x as int, self.y as int, EdgeDirection::West),
        ]
    }

    open spec fn corner_neighbors(&self) -> Seq<Corner> {
        seq![
            Corner::at(self.x as int, self.y as int, CornerDirection::Northwest),
            Corner::at(self.x as int, self.y as int, CornerDirection::Northeast),
            Corner::at(self.x as int, self.y as int, CornerDirection::North),
            Corner::at(self.x as int, self.y as int, CornerDirection::Southeast),
            Corner::at(self.x as int, self.y as int, CornerDirection::Southwest),
            Corner::at(self.x as int, self.y as int, CornerDirection::South),
        ]
    }

    fn get_tile_neighbors(&self) -> (neighbors: Vec<Tile>) {
        vec![
            Tile::new(self.x + 1, self.y),
            Tile::new(self.x - 1, self.y),
            Tile::new(self.x, self.y + 1),
            Tile::new(self.x, self.y - 1),
            Tile::new(self.x - 1, self.y + 1),
            Tile::new(self.x + 1, self.y - 1),
        ]
    }

    fn get_edge_neighbors(&self) -> (neighbors: Vec<Edge>) {
        vec![
            Edge::new(self.x, self.y, EdgeDirection::Northwest),
            Edge::new(self.x, self.y, EdgeDirection::Northeast),
            Edge::new(self.x, self.y, EdgeDirection::East),
            Edge::new(self.x, self.y, EdgeDirection::Southeast),
            Edge::new(self.x, self.y, EdgeDirection::Southwest),
            Edge::new(self.x, self.y, EdgeDirection::West),
        ]
    }

    fn get_corner_neighbors(&self) -> (neighbors: Vec<Corner>) {
        vec![
            Corner::new(self.x, self.y, CornerDirection::Northwest),
            Corner::new(self.x, self.y, CornerDirection::Northeast),
            Corner::new(self.x, self.y, CornerDirection::North),
            Corner::new(self.x, self.y, CornerDirection::Southeast),
            Corner::new(self.x, self.y, CornerDirection::Southwest),
            Corner::new(self.x, self.y, CornerDirection::South),
        ]
    }
}

impl CornerDirection {
    /// The canonical direction that names the same corner, and how far the
    /// tile that it is relative to lies from the tile of `self`.
    pub open spec fn canonical(self) -> (int, int, CanonicalCornerDir) {
        match self {
            CornerDirection::Northwest => (-1, 0, CanonicalCornerDir::Northeast),
            CornerDirection::North => (0, 0, CanonicalCornerDir::North),
            CornerDirection::Northeast => (0, 0, CanonicalCornerDir::Northeast),
            CornerDirection::Southeast => (1, -1, CanonicalCornerDir::North),
            CornerDirection::South => (0, -1, CanonicalCornerDir::Northeast),
            CornerDirection::Southwest => (0, -1, CanonicalCornerDir::North),
        }
    }

    /// The two tiles, besides the tile itself, that meet at this corner, as
    /// steps from the tile: first the one reached counterclockwise of the
    /// corner, then the one reached clockwise of it.
    pub open spec fn touching(self) -> ((int, int), (int, int)) {
        match self {
            CornerDirection::Northwest => ((-1, 0), (-1, 1)),
            CornerDirection::North => ((-1, 1), (0, 1)),
            CornerDirection::Northeast => ((0, 1), (1, 0)),
            CornerDirection::Southeast => ((1, 0), (1, -1)),
            CornerDirection::South => ((1, -1), (0, -1)),
            CornerDirection::Southwest => ((0, -1), (-1, 0)),
        }
    }

    /// The direction two corners further clockwise around the tile.
    pub open spec fn turn(self) -> CornerDirection {
        match self {
            CornerDirection::Northwest => CornerDirection::Northeast,
            CornerDirection::North => CornerDirection::Southeast,
            CornerDirection::Northeast => CornerDirection::South,
            CornerDirection::Southeast => CornerDirection::Southwest,
            CornerDirection::South => CornerDirection::Northwest,
            CornerDirection::Southwest => CornerDirection::North,
        }
    }
}

impl CanonicalCornerDir {
    /// The label of the direction in the text form of a corner.
    pub open spec fn label_text(self) -> Seq<char> {
        match self {
            CanonicalCornerDir::North => "CornerNorth"@,
            CanonicalCornerDir::Northeast => "CornerNortheast"@,
        }
    }

    /// The direction that `label` is the label of.
    pub open spec fn parse(label: Seq<char>) -> Option<CanonicalCornerDir> {
        if label == "CornerNorth"@ {
            Some(CanonicalCornerDir::North)
        } else if label == "CornerNortheast"@ {
            Some(CanonicalCornerDir::Northeast)
        } else {
            None
        }
    }

    /// The label of the direction in the text form of a corner.
    pub fn to_string(&self) -> (label: String)
        ensures
            label@ == self.label_text(),
    {
        match self {
            CanonicalCornerDir::North => String::from_str("CornerNorth"),
            CanonicalCornerDir::Northeast => String::from_str("CornerNortheast"),
        }
    }

    /// The direction that `s` is the label of.
    pub fn from_str(s: &str) -> (result: Result<CanonicalCornerDir, ParseError>)
        ensures
            match result {
                Ok(dir) => CanonicalCornerDir::parse(s@) == Some(dir),
                Err(error) => error == ParseError::InvalidLabel && CanonicalCornerDir::parse(s@)
                    is None,
            },
    {
        if same_text(s, "CornerNorth") {
            Ok(CanonicalCornerDir::North)
        } else if same_text(s, "CornerNortheast") {
            Ok(CanonicalCornerDir::Northeast)
        } else {
            Err(ParseError::InvalidLabel)
        }
    }

    /// The same direction among the six that a tile has.
    pub open spec fn direction(self) -> CornerDirection {
        match self {
            CanonicalCornerDir::North => CornerDirection::North,
            CanonicalCornerDir::Northeast => CornerDirection::Northeast,
        }
    }
}

/// The canonical coordinate of one corner: the north or northeast corner of
/// the tile `(x, y)`.
#[derive(Debug, Copy, Clone, Eq, PartialEq, Hash, Structural)]
pub struct Corner {
    pub x: i32,
    pub y: i32,
    pub dir: CanonicalCornerDir,
}

impl Corner {
    /// The canonical coordinate of the corner of tile `(x, y)` in direction `dir`.
    pub open spec fn at(x: int, y: int, dir: CornerDirection) -> Corner {
        let (dx, dy, canonical) = dir.canonical();
        Corner { x: (x + dx) as i32, y: (y + dy) as i32, dir: canonical }
    }

    /// The canonical coordinate of the corner of tile `(x, y)` in direction
    /// `dir` has components that fit in `i32`.
    pub open spec fn representable(x: int, y: int, dir: CornerDirection) -> bool {
        let (dx, dy, _canonical) = dir.canonical();
        &&& i32::MIN <= x + dx <= i32::MAX
        &&& i32::MIN <= y + dy <= i32::MAX
    }

    /// The canonical coordinate of the corner of tile `(x, y)` in direction `dir`.
    pub fn new(x: i32, y: i32, dir: CornerDirection) -> (corner: Corner)
        requires
            Corner::representable(x as int, y as int, dir),
        ensures
            corner == Corner::at(x as int, y as int, dir),
    {
        match dir {
            CornerDirection::Northwest => Corner { x: x - 1, y, dir: CanonicalCornerDir::Northeast },
            CornerDirection::North => Corner { x, y, dir: CanonicalCornerDir::North },
            CornerDirection::Northeast => Corner { x, y, dir: CanonicalCornerDir::Northeast },
            CornerDirection::Southeast => Corner {
                x: x + 1,
                y: y - 1,
                dir: CanonicalCornerDir::North,
            },
            CornerDirection::South => Corner { x, y: y - 1, dir: CanonicalCornerDir::Northeast },
            CornerDirection::Southwest => Corner { x, y: y - 1, dir: CanonicalCornerDir::North },
        }
    }

    /// The canonical coordinate of the corner of tile `(x, y)` in direction
    /// `dir`, if its components fit in `i32`.
    pub fn checked_new(x: i32, y: i32, dir: CornerDirection) -> (corner: Option<Corner>)
        ensures
            corner == if Corner::representable(x as int, y as int, dir) {
                Some(Corner::at(x as int, y as int, dir))
            } else {
                None
            },
    {
        let fits = match dir {
            CornerDirection::Northwest => x > i32::MIN,
            CornerDirection::North => true,
            CornerDirection::Northeast => true,
            CornerDirection::Southeast => x < i32::MAX && y > i32::MIN,
            CornerDirection::South => y > i32::MIN,
            CornerDirection::Southwest => y > i32::MIN,
        };
        if fits {
            Some(Corner::new(x, y, dir))
        } else {
            None
        }
    }

    /// The text form of the corner: `x,y,` and the label of its direction.
    pub open spec fn text(self) -> Seq<char> {
        coord_text(self.x, self.y, self.label_text())
    }

    /// The text form of the corner: `x,y,` and the label of its direction.
    pub fn to_string(&self) -> (text: String)
        ensures
            text@ == self.text(),
    {
        let label = self.label();
        format_coord(self.x, self.y, label.as_str())
    }

    /// Reads the text form of a corner.
    pub fn from_str(s: &str) -> (result: Result<Corner, ParseError>)
        ensures
            result == parse_text::<Corner>(s@),
    {
        parse_coord::<Corner>(s)
    }
}

impl HexCoord for Corner {
    open spec fn interior(&self) -> bool {
        within_margin(self.x as int, self.y as int, 1)
    }

    open spec fn label_text(&self) -> Seq<char> {
        self.dir.label_text()
    }

    open spec fn from_label(x: i32, y: i32, label: Seq<char>) -> Option<Corner> {
        match CanonicalCornerDir::parse(label) {
            Some(dir) => Some(Corner { x, y, dir }),
            None => None,
        }
    }

    fn is_interior(&self) -> (inside: bool) {
        i32::MIN < self.x && self.x < i32::MAX && i32::MIN < self.y && self.y < i32::MAX
    }

    fn label(&self) -> (label: String) {
        self.dir.to_string()
    }

    fn new(x: i32, y: i32, label: &str) -> (result: Result<Corner, ParseError>) {
        match CanonicalCornerDir::from_str(label) {
            Ok(dir) => Ok(Corner { x, y, dir }),
            Err(error) => Err(error),
        }
    }

    open spec fn tile_neighbors(&self) -> Seq<Tile> {
        match self.dir {
            CanonicalCornerDir::North => seq![
                Tile::at(self.x as int, self.y as int),
                Tile::at(self.x - 1, self.y + 1),
                Tile::at(self.x as int, self.y + 1),
            ],
            CanonicalCornerDir::Northeast => seq![
                Tile::at(self.x as int, self.y as int),
                Tile::at(self.x as int, self.y + 1),
                Tile::at(self.x + 1, self.y as int),
            ],
        }
    }

    open spec fn edge_neighbors(&self) -> Seq<Edge> {
        match self.dir {
            CanonicalCornerDir::North => seq![
                Edge::at(self.x as int, self.y as int, EdgeDirection::Northwest),
                Edge::at(self.x as int, self.y as int, EdgeDirection::Northeast),
                Edge::at(self.x - 1, self.y + 1, EdgeDirection::East),
            ],
            CanonicalCornerDir::Northeast => seq![
                Edge::at(self.x as int, self.y as int, EdgeDirection::Northeast),
                Edge::at(self.x as int, self.y as int, EdgeDirection::East),
                Edge::at(self.x + 1, self.y as int, EdgeDirection::Northwest),
            ],
        }
    }

    open spec fn corner_neighbors(&self) -> Seq<Corner> {
        match self.dir {
            CanonicalCornerDir::North => seq![
                Corner::at(self.x as int, self.y as int, CornerDirection::Northwest),
                Corner::at(self.x as int, self.y as int, CornerDirection::Northeast),
                Corner::at(self.x as int, self.y + 1, CornerDirection::Northwest),
            ],
            CanonicalCornerDir::Northeast => seq![
                Corner::at(self.x as int, self.y as int, CornerDirection::North),
                Corner::at(self.x as int, self.y as int, CornerDirection::Southeast),
                Corner::at(self.x + 1, self.y as int, CornerDirection::North),
            ],
        }
    }

    fn get_tile_neighbors(&self) -> (neighbors: Vec<Tile>) {
        match self.dir {
            CanonicalCornerDir::North => vec![
                Tile::new(self.x, self.y),
                Tile::new(self.x - 1, self.y + 1),
                Tile::new(self.x, self.y + 1),
            ],
            CanonicalCornerDir::Northeast => vec![
                Tile::new(self.x, self.y),
                Tile::new(self.x, self.y + 1),
                Tile::new(self.x + 1, self.y),
            ],
        }
    }

    fn get_edge_neighbors(&self) -> (neighbors: Vec<Edge>) {
        match self.dir {
            CanonicalCornerDir::North => vec![
                Edge::new(self.x, self.y, EdgeDirection::Northwest),
                Edge::new(self.x, self.y, EdgeDirection::Northeast),
                Edge::new(self.x - 1, self.y + 1, EdgeDirection::East),
            ],
            CanonicalCornerDir::Northeast => vec![
                Edge::new(self.x, self.y, EdgeDirection::Northeast),
                Edge::new(self.x, self.y, EdgeDirection::East),
                Edge::new(self.x + 1, self.y, EdgeDirection::Northwest),
            ],
        }
    }

    fn get_corner_neighbors(&self) -> (neighbors: Vec<Corner>) {
        match self.dir {
            CanonicalCornerDir::North => vec![
                Corner::new(self.x, self.y, CornerDirection::Northwest),
                Corner::new(self.x, self.y, CornerDirection::Northeast),
                Corner::new(self.x, self.y + 1, CornerDirection::Northwest),
            ],
            CanonicalCornerDir::Northeast => vec![
                Corner::new(self.x, self.y, CornerDirection::North),
                Corner::new(self.x, self.y, CornerDirection::Southeast),
                Corner::new(self.x + 1, self.y, CornerDirection::North),
            ],
        }
    }
}

impl EdgeDirection {
    /// The canonical direction that names the same edge, and how far the tile
    /// that it is relative to lies from the tile of `self`.
    pub open spec fn canonical(self) -> (int, int, CanonicalEdgeDir) {
        match self {
            EdgeDirection::Northwest => (0, 0, CanonicalEdgeDir::Northwest),
            EdgeDirection::Northeast => (0, 0, CanonicalEdgeDir::Northeast),
            EdgeDirection::East => (0, 0, CanonicalEdgeDir::East),
            EdgeDirection::Southeast => (1, -1, CanonicalEdgeDir::Northwest),
            EdgeDirection::Southwest => (0, -1, CanonicalEdgeDir::Northeast),
            EdgeDirection::West => (-1, 0, CanonicalEdgeDir::East),
        }
    }

    /// The step from a tile to the tile on the other side of this edge.
    pub open spec fn step(self) -> (int, int) {
        match self {
            EdgeDirection::Northwest => (-1, 1),
            EdgeDirection::Northeast => (0, 1),
            EdgeDirection::East => (1, 0),
            EdgeDirection::Southeast => (1, -1),
            EdgeDirection::Southwest => (0, -1),
            EdgeDirection::West => (-1, 0),
        }
    }

    /// The direction of the same edge seen from the tile on its other side.
    pub open spec fn opposite(self) -> EdgeDirection {
        match self {
            EdgeDirection::Northwest => EdgeDirection::Southeast,
            EdgeDirection::Northeast => EdgeDirection::Southwest,
            EdgeDirection::East => EdgeDirection::West,
            EdgeDirection::Southeast => EdgeDirection::Northwest,
            EdgeDirection::Southwest => EdgeDirection::Northeast,
            EdgeDirection::West => EdgeDirection::East,
        }
    }
}

impl CanonicalEdgeDir {
    /// The label of the direction in the text form of an edge.
    pub open spec fn label_text(self) -> Seq<char> {
        match self {
            CanonicalEdgeDir::Northwest => "EdgeNorthwest"@,
            CanonicalEdgeDir::Northeast => "EdgeNortheast"@,
            CanonicalEdgeDir::East => "EdgeEast"@,
        }
    }

    /// The direction that `label` is the label of.
    pub open spec fn parse(label: Seq<char>) -> Option<CanonicalEdgeDir> {
        if label == "EdgeNorthwest"@ {
            Some(CanonicalEdgeDir::Northwest)
        } else if label == "EdgeNortheast"@ {
            Some(CanonicalEdgeDir::Northeast)
        } else if label == "EdgeEast"@ {
            Some(CanonicalEdgeDir::East)
        } else {
            None
        }
    }

    /// The label of the direction in the text form of an edge.
    pub fn to_string(&self) -> (label: String)
        ensures
            label@ == self.label_text(),
    {
        match self {
            CanonicalEdgeDir::Northwest => String::from_str("EdgeNorthwest"),
            CanonicalEdgeDir::Northeast => String::from_str("EdgeNortheast"),
            CanonicalEdgeDir::East => String::from_str("EdgeEast"),
        }
    }

    /// The direction that `s` is the label of.
    pub fn from_str(s: &str) -> (result: Result<CanonicalEdgeDir, ParseError>)
        ensures
            match result {
                Ok(dir) => CanonicalEdgeDir::parse(s@) == Some(dir),
                Err(error) => error == ParseError::InvalidLabel && CanonicalEdgeDir::parse(s@)
                    is None,
            },
    {
        if same_text(s, "EdgeNorthwest") {
            Ok(CanonicalEdgeDir::Northwest)
        } else if same_text(s, "EdgeNortheast") {
            Ok(CanonicalEdgeDir::Northeast)
        } else if same_text(s, "EdgeEast") {
            Ok(CanonicalEdgeDir::East)
        } else {
            Err(ParseError::InvalidLabel)
        }
    }

    /// The same direction among the six that a tile has.
    pub open spec fn direction(self) -> EdgeDirection {
        match self {
            CanonicalEdgeDir::Northwest => EdgeDirection::Northwest,
            CanonicalEdgeDir::Northeast => EdgeDirection::Northeast,
            CanonicalEdgeDir::East => EdgeDirection::East,
        }
    }
}

/// The canonical coordinate of one edge: the northwest, northeast or east edge
/// of the tile `(x, y)`.
#[derive(Debug, Copy, Clone, Eq, PartialEq, Hash, Structural)]
pub struct Edge {
    pub x: i32,
    pub y: i32,
    pub dir: CanonicalEdgeDir,
}

impl Edge {
    /// The canonical coordinate of the edge of tile `(x, y)` in direction `dir`.
    pub open spec fn at(x: int, y: int, dir: EdgeDirection) -> Edge {
        let (dx, dy, canonical) = dir.canonical();
        Edge { x: (x + dx) as i32, y: (y + dy) as i32, dir: canonical }
    }

    /// The canonical coordinate of the edge of tile `(x, y)` in direction `dir`
    /// has components that fit in `i32`.
    pub open spec fn representable(x: int, y: int, dir: EdgeDirection) -> bool {
        let (dx, dy, _canonical) = dir.canonical();
        &&& i32::MIN <= x + dx <= i32::MAX
        &&& i32::MIN <= y + dy <= i32::MAX
    }

    /// The canonical coordinate of the edge of tile `(x, y)` in direction `dir`.
    pub fn new(x: i32, y: i32, dir: EdgeDirection) -> (edge: Edge)
        requires
            Edge::representable(x as int, y as int, dir),
        ensures
            edge == Edge::at(x as int, y as int, dir),
    {
        match dir {
            EdgeDirection::Northwest => Edge { x, y, dir: CanonicalEdgeDir::Northwest },
            EdgeDirection::Northeast => Edge { x, y, dir: CanonicalEdgeDir::Northeast },
            EdgeDirection::East => Edge { x, y, dir: CanonicalEdgeDir::East },
            EdgeDirection::Southeast => Edge {
                x: x + 1,
                y: y - 1,
                dir: CanonicalEdgeDir::Northwest,
            },
            EdgeDirection::Southwest => Edge { x, y: y - 1, dir: CanonicalEdgeDir::Northeast },
            EdgeDirection::West => Edge { x: x - 1, y, dir: CanonicalEdgeDir::East },
        }
    }

    /// The canonical coordinate of the edge of tile `(x, y)` in direction
    /// `dir`, if its components fit in `i32`.
    pub fn checked_new(x: i32, y: i32, dir: EdgeDirection) -> (edge: Option<Edge>)
        ensures
            edge == if Edge::representable(x as int, y as int, dir) {
                Some(Edge::at(x as int, y as int, dir))
            } else {
                None
            },
    {
        let fits = match dir {
            EdgeDirection::Northwest => true,
            EdgeDirection::Northeast => true,
            EdgeDirection::East => true,
            EdgeDirection::Southeast => x < i32::MAX && y > i32::MIN,
            EdgeDirection::Southwest => y > i32::MIN,
            EdgeDirection::West => x > i32::MIN,
        };
        if fits {
            Some(Edge::new(x, y, dir))
        } else {
            None
        }
    }

    /// The text form of the edge: `x,y,` and the label of its direction.
    pub open spec fn text(self) -> Seq<char> {
        coord_text(self.x, self.y, self.label_text())
    }

    /// The text form of the edge: `x,y,` and the label of its direction.
    pub fn to_string(&self) -> (text: String)
        ensures
            text@ == self.text(),
    {
        let label = self.label();
        format_coord(self.x, self.y, label.as_str())
    }

    /// Reads the text form of an edge.
    pub fn from_str(s: &str) -> (result: Result<Edge, ParseError>)
        ensures
            result == parse_text::<Edge>(s@),
    {
        parse_coord::<Edge>(s)
    }
}

impl HexCoord for Edge {
    open spec fn interior(&self) -> bool {
        within_margin(self.x as int, self.y as int, 1)
    }

    open spec fn label_text(&self) -> Seq<char> {
        self.dir.label_text()
    }

    open spec fn from_label(x: i32, y: i32, label: Seq<char>) -> Option<Edge> {
        match CanonicalEdgeDir::parse(label) {
            Some(dir) => Some(Edge { x, y, dir }),
            None => None,
        }
    }

    fn is_interior(&self) -> (inside: bool) {
        i32::MIN < self.x && self.x < i32::MAX && i32::MIN < self.y && self.y < i32::MAX
    }

    fn label(&self) -> (label: String) {
        self.dir.to_string()
    }

    fn new(x: i32, y: i32, label: &str) -> (result: Result<Edge, ParseError>) {
        match CanonicalEdgeDir::from_str(label) {
            Ok(dir) => Ok(Edge { x, y, dir }),
            Err(error) => Err(error),
        }
    }

    open spec fn tile_neighbors(&self) -> Seq<Tile> {
        match self.dir {
            CanonicalEdgeDir::Northwest => seq![
                Tile::at(self.x as int, self.y as int),
                Tile::at(self.x - 1, self.y + 1),
            ],
            CanonicalEdgeDir::Northeast => seq![
                Tile::at(self.x as int, self.y as int),
                Tile::at(self.x as int, self.y + 1),
            ],
            CanonicalEdgeDir::East => seq![
                Tile::at(self.x as int, self.y as int),
                Tile::at(self.x + 1, self.y as int),
            ],
        }
    }

    open spec fn edge_neighbors(&self) -> Seq<Edge> {
        match self.dir {
            CanonicalEdgeDir::Northwest => seq![
                Edge::at(self.x as int, self.y as int, EdgeDirection::West),
                Edge::at(self.x as int, self.y as int, EdgeDirection::Northeast),
                Edge::at(self.x - 1, self.y + 1, EdgeDirection::Southwest),
                Edge::at(self.x - 1, self.y + 1, EdgeDirection::East),
            ],
            CanonicalEdgeDir::Northeast => seq![
                Edge::at(self.x as int, self.y as int, EdgeDirection::Northwest),
                Edge::at(self.x as int, self.y as int, EdgeDirection::East),
                Edge::at(self.x as int, self.y + 1, EdgeDirection::West),
                Edge::at(self.x as int, self.y + 1, EdgeDirection::Southeast),
            ],
            CanonicalEdgeDir::East => seq![
                Edge::at(self.x as int, self.y as int, EdgeDirection::Northeast),
                Edge::at(self.x as int, self.y as int, EdgeDirection::Southeast),
                Edge::at(self.x + 1, self.y as int, EdgeDirection::Northwest),
                Edge::at(self.x + 1, self.y as int, EdgeDirection::Southwest),
            ],
        }
    }

    open spec fn corner_neighbors(&self) -> Seq<Corner> {
        match self.dir {
            CanonicalEdgeDir::Northwest => seq![
                Corner::at(self.x as int, self.y as int, CornerDirection::Northwest),
                Corner::at(self.x as int, self.y as int, CornerDirection::North),
            ],
            CanonicalEdgeDir::Northeast => seq![
                Corner::at(self.x as int, self.y as int, CornerDirection::North),
                Corner::at(self.x as int, self.y as int, CornerDirection::Northeast),
            ],
            CanonicalEdgeDir::East => seq![
                Corner::at(self.x as int, self.y as int, CornerDirection::Northeast),
                Corner::at(self.x as int, self.y as int, CornerDirection::Southeast),
            ],
        }
    }

    fn get_tile_neighbors(&self) -> (neighbors: Vec<Tile>) {
        match self.dir {
            CanonicalEdgeDir::Northwest => vec![
                Tile::new(self.x, self.y),
                Tile::new(self.x - 1, self.y + 1),
            ],
            CanonicalEdgeDir::Northeast => vec![
                Tile::new(self.x, self.y),
                Tile::new(self.x, self.y + 1),
            ],
            CanonicalEdgeDir::East => vec![Tile::new(self.x, self.y), Tile::new(self.x + 1, self.y)],
        }
    }

    fn get_edge_neighbors(&self) -> (neighbors: Vec<Edge>) {
        match self.dir {
            CanonicalEdgeDir::Northwest => vec![
                Edge::new(self.x, self.y, EdgeDirection::West),
                Edge::new(self.x, self.y, EdgeDirection::Northeast),
                Edge::new(self.x - 1, self.y + 1, EdgeDirection::Southwest),
                Edge::new(self.x - 1, self.y + 1, EdgeDirection::East),
            ],
            CanonicalEdgeDir::Northeast => vec![
                Edge::new(self.x, self.y, EdgeDirection::Northwest),
                Edge::new(self.x, self.y, EdgeDirection::East),
                Edge::new(self.x, self.y + 1, EdgeDirection::West),
                Edge::new(self.x, self.y + 1, EdgeDirection::Southeast),
            ],
            CanonicalEdgeDir::East => vec![
                Edge::new(self.x, self.y, EdgeDirection::Northeast),
                Edge::new(self.x, self.y, EdgeDirection::Southeast),
                Edge::new(self.x + 1, self.y, EdgeDirection::Northwest),
                Edge::new(self.x + 1, self.y, EdgeDirection::Southwest),
            ],
        }
    }

    fn get_corner_neighbors(&self) -> (neighbors: Vec<Corner>) {
        match self.dir {
            CanonicalEdgeDir::Northwest => vec![
                Corner::new(self.x, self.y, CornerDirection::Northwest),
                Corner::new(self.x, self.y, CornerDirection::North),
            ],
            CanonicalEdgeDir::Northeast => vec![
                Corner::new(self.x, self.y, CornerDirection::North),
                Corner::new(self.x, self.y, CornerDirection::Northeast),
            ],
            CanonicalEdgeDir::East => vec![
                Corner::new(self.x, self.y, CornerDirection::Northeast),
                Corner::new(self.x, self.y, CornerDirection::Southeast),
            ],
        }
    }
}

} // verus!
