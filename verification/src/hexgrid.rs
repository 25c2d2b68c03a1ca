//! A grid that stores one value per tile, per edge and per corner of a hex
//! tiling, keyed by canonical coordinates.
//!
//! The three maps are independent of each other: removing a tile leaves its
//! edges and corners where they are.

use vstd::prelude::*;
use vstd::std_specs::hash::*;
use vstd::std_specs::iter::IteratorSpec;
use std::collections::hash_map::Entry;
use std::collections::HashMap;
use crate::hex_coordinates::{CanonicalCornerDir, CanonicalEdgeDir, Corner, Edge, HexCoord, Tile};

verus! {

broadcast use vstd::std_specs::hash::group_hash_axioms;

/// The hash key of the cell `(x, y)`: both components, shifted to be
/// non-negative, side by side in one integer.
spec fn cell_key(cell: (i32, i32)) -> u64 {
    ((cell.0 - i32::MIN) * 0x1_0000_0000 + (cell.1 - i32::MIN)) as u64
}

/// The cell that `key` stands for.
spec fn key_cell(key: u64) -> (i32, i32) {
    ((key / 0x1_0000_0000 + i32::MIN) as i32, (key % 0x1_0000_0000 + i32::MIN) as i32)
}

/// Cells and keys correspond one to one.
proof fn lemma_cell_key_bijective()
    ensures
        forall|cell: (i32, i32)| key_cell(#[trigger] cell_key(cell)) == cell,
        forall|key: u64| cell_key(#[trigger] key_cell(key)) == key,
{
    assert forall|cell: (i32, i32)| key_cell(#[trigger] cell_key(cell)) == cell by {
        let hi = cell.0 - i32::MIN;
        let lo = cell.1 - i32::MIN;
        assert(0 <= hi < 0x1_0000_0000 && 0 <= lo < 0x1_0000_0000);
        assert((hi * 0x1_0000_0000 + lo) / 0x1_0000_0000 == hi);
        assert((hi * 0x1_0000_0000 + lo) % 0x1_0000_0000 == lo);
    }
    assert forall|key: u64| cell_key(#[trigger] key_cell(key)) == key by {
        let hi = key / 0x1_0000_0000;
        let lo = key % 0x1_0000_0000;
        assert(0 <= hi < 0x1_0000_0000 && 0 <= lo < 0x1_0000_0000);
    }
}

fn key_of(x: i32, y: i32) -> (key: u64)
    ensures
        key == cell_key((x, y)),
{
    let hi: u64 = (x as i64 - i32::MIN as i64) as u64;
    let lo: u64 = (y as i64 - i32::MIN as i64) as u64;
    hi * 0x1_0000_0000 + lo
}

fn cell_of(key: u64) -> (cell: (i32, i32))
    ensures
        cell == key_cell(key),
{
    (
        ((key / 0x1_0000_0000) as i64 + i32::MIN as i64) as i32,
        ((key % 0x1_0000_0000) as i64 + i32::MIN as i64) as i32,
    )
}

/// What a hash map keyed by cell keys holds, by cell.
spec fn by_cell<V>(entries: Map<u64, V>) -> Map<(i32, i32), V> {
    Map::new(
        |cell: (i32, i32)| entries.contains_key(cell_key(cell)),
        |cell: (i32, i32)| entries[cell_key(cell)],
    )
}

/// Storing a value under the key of a cell changes what is held at that cell
/// only.
proof fn lemma_by_cell_insert<V>(entries: Map<u64, V>, cell: (i32, i32))
    ensures
        forall|value: V| #[trigger]
            by_cell(entries.insert(cell_key(cell), value)) == by_cell(entries).insert(cell, value),
{
    lemma_cell_key_bijective();
    assert forall|value: V| #[trigger]
        by_cell(entries.insert(cell_key(cell), value)) == by_cell(entries).insert(
            cell,
            value,
        ) by {
        assert(by_cell(entries.insert(cell_key(cell), value)) =~= by_cell(entries).insert(
            cell,
            value,
        ));
    }
}

/// Removing the key of a cell removes that cell and no other.
proof fn lemma_by_cell_remove<V>(entries: Map<u64, V>, cell: (i32, i32))
    ensures
        by_cell(entries.remove(cell_key(cell))) == by_cell(entries).remove(cell),
        !entries.contains_key(cell_key(cell)) ==> by_cell(entries.remove(cell_key(cell)))
            == by_cell(entries),
{
    lemma_cell_key_bijective();
    assert(by_cell(entries.remove(cell_key(cell))) =~= by_cell(entries).remove(cell));
    if !entries.contains_key(cell_key(cell)) {
        assert(entries.remove(cell_key(cell)) =~= entries);
    }
}

/// There are as many cells as keys.
proof fn lemma_by_cell_count<V>(entries: Map<u64, V>)
    requires
        entries.dom().finite(),
    ensures
        by_cell(entries).dom().finite(),
        by_cell(entries).dom().len() == entries.dom().len(),
{
    lemma_cell_key_bijective();
    let decode = |key: u64| key_cell(key);
    assert(entries.dom().map(decode) =~= by_cell(entries).dom()) by {
        assert forall|cell: (i32, i32)| by_cell(entries).dom().contains(cell) implies entries.dom().map(
            decode,
        ).contains(cell) by {
            assert(decode(cell_key(cell)) == cell);
        }
    }
    assert(vstd::relations::injective_on(decode, entries.dom())) by {
        assert forall|a: u64, b: u64| #[trigger] key_cell(a) == #[trigger] key_cell(b) implies a
            == b by {
            assert(cell_key(key_cell(a)) == a);
            assert(cell_key(key_cell(b)) == b);
        }
    }
    vstd::set_lib::lemma_map_size(entries.dom(), by_cell(entries).dom(), decode);
}

/// One value per cell `(x, y)`, in a hash map keyed by an integer that
/// stands for the cell.
#[derive(Debug, Clone, Eq, PartialEq)]
struct Cells<V> {
    entries: HashMap<u64, V>,
}

impl<V> View for Cells<V> {
    type V = Map<(i32, i32), V>;

    closed spec fn view(&self) -> Map<(i32, i32), V> {
        by_cell(self.entries@)
    }
}

impl<V> Cells<V> {
    fn new() -> (cells: Self)
        ensures
            cells@ == Map::<(i32, i32), V>::empty(),
    {
        let cells = Cells { entries: HashMap::new() };
        assert(cells@ =~= Map::<(i32, i32), V>::empty());
        cells
    }

    proof fn lemma_finite(&self)
        ensures
            self@.dom().finite(),
    {
        lemma_by_cell_count(self.entries@);
    }

    fn len(&self) -> (count: usize)
        ensures
            self@.dom().finite(),
            count == self@.dom().len(),
    {
        proof {
            lemma_by_cell_count(self.entries@);
        }
        self.entries.len()
    }

    fn contains_key(&self, x: i32, y: i32) -> (present: bool)
        ensures
            present == self@.contains_key((x, y)),
    {
        let key = key_of(x, y);
        self.entries.contains_key(&key)
    }

    fn get(&self, x: i32, y: i32) -> (found: Option<&V>)
        ensures
            match found {
                Some(value) => self@.contains_key((x, y)) && *value == self@[(x, y)],
                None => !self@.contains_key((x, y)),
            },
    {
        let key = key_of(x, y);
        self.entries.get(&key)
    }

    fn get_mut(&mut self, x: i32, y: i32) -> (found: Option<&mut V>)
        ensures
            match found {
                Some(value) => old(self)@.contains_key((x, y)) && *value == old(self)@[(x, y)]
                    && final(self)@ == old(self)@.insert((x, y), *final(value)),
                None => !old(self)@.contains_key((x, y)) && final(self)@ == old(self)@,
            },
    {
        let key = key_of(x, y);
        proof {
            lemma_by_cell_insert(self.entries@, (x, y));
            lemma_by_cell_remove(self.entries@, (x, y));
        }
        match self.entries.entry(key) {
            Entry::Occupied(occupied) => Some(occupied.into_mut()),
            Entry::Vacant(_vacant) => None,
        }
    }

    fn insert(&mut self, x: i32, y: i32, value: V) -> (previous: Option<V>)
        ensures
            final(self)@ == old(self)@.insert((x, y), value),
            match previous {
                Some(before) => old(self)@.contains_key((x, y)) && before == old(self)@[(x, y)],
                None => !old(self)@.contains_key((x, y)),
            },
    {
        let key = key_of(x, y);
        proof {
            lemma_by_cell_insert(self.entries@, (x, y));
        }
        self.entries.insert(key, value)
    }

    fn remove(&mut self, x: i32, y: i32) -> (removed: Option<V>)
        ensures
            final(self)@ == old(self)@.remove((x, y)),
            match removed {
                Some(before) => old(self)@.contains_key((x, y)) && before == old(self)@[(x, y)],
                None => !old(self)@.contains_key((x, y)),
            },
    {
        let key = key_of(x, y);
        proof {
            lemma_by_cell_remove(self.entries@, (x, y));
        }
        self.entries.remove(&key)
    }

    fn clear(&mut self)
        ensures
            final(self)@ == Map::<(i32, i32), V>::empty(),
    {
        self.entries.clear();
        assert(self@ =~= Map::<(i32, i32), V>::empty());
    }

    /// All cells that hold a value, each once, in the order in which the hash
    /// map yields them.
    fn cells(&self) -> (cells: Vec<(i32, i32)>)
        ensures
            cells@.no_duplicates(),
            cells@.to_set() == self@.dom(),
    {
        let mut cells: Vec<(i32, i32)> = Vec::new();
        let ghost all = spec_keys_iter(&self.entries).remaining();
        for key in it: self.entries.keys()
            invariant
                it.seq() == all,
                cells.len() == it.index(),
                forall|j: int| 0 <= j < it.index() ==> cells[j] == key_cell(*all[j]),
        {
            cells.push(cell_of(*key));
        }
        proof {
            lemma_cell_key_bijective();
            let keys = all.unref();
            assert(cells@.no_duplicates()) by {
                assert forall|a: int, b: int|
                    0 <= a < cells.len() && 0 <= b < cells.len() && a != b implies cells[a]
                    != cells[b] by {
                    assert(cell_key(key_cell(*all[a])) == *all[a]);
                    assert(cell_key(key_cell(*all[b])) == *all[b]);
                }
            }
            assert(cells@.to_set() =~= self@.dom()) by {
                assert forall|cell: (i32, i32)| self@.dom().contains(cell) implies cells@.to_set().contains(
                    cell,
                ) by {
                    let key = cell_key(cell);
                    assert(keys.to_set().contains(key));
                    let j = choose|j: int| 0 <= j < keys.len() && keys[j] == key;
                    assert(cells[j] == cell);
                }
                assert forall|cell: (i32, i32)| cells@.to_set().contains(cell) implies self@.dom().contains(
                    cell,
                ) by {
                    let j = choose|j: int| 0 <= j < cells.len() && cells[j] == cell;
                    assert(keys[j] == *all[j]);
                    assert(keys.to_set().contains(keys[j]));
                }
            }
        }
        cells
    }
}

/// What the cells of tiles hold, by tile coordinate.
spec fn tiles_of<V>(cells: Map<(i32, i32), V>) -> Map<Tile, V> {
    Map::new(|tile: Tile| cells.contains_key((tile.x, tile.y)), |tile: Tile| cells[(tile.x, tile.y)])
}

proof fn lemma_tiles_of_insert<V>(cells: Map<(i32, i32), V>, tile: Tile)
    ensures
        forall|value: V| #[trigger]
            tiles_of(cells.insert((tile.x, tile.y), value)) == tiles_of(cells).insert(tile, value),
{
    assert forall|value: V| #[trigger]
        tiles_of(cells.insert((tile.x, tile.y), value)) == tiles_of(cells).insert(
            tile,
            value,
        ) by {
        assert(tiles_of(cells.insert((tile.x, tile.y), value)) =~= tiles_of(cells).insert(
            tile,
            value,
        ));
    }
}

/// The values stored for tiles, by tile coordinate.
#[derive(Debug, Clone, Eq, PartialEq)]
pub struct TileMap<T> {
    cells: Cells<T>,
}

impl<T> View for TileMap<T> {
    type V = Map<Tile, T>;

    closed spec fn view(&self) -> Map<Tile, T> {
        tiles_of(self.cells@)
    }
}

impl<T> TileMap<T> {
    /// A map that holds nothing.
    pub fn new() -> (map: Self)
        ensures
            map@ == Map::<Tile, T>::empty(),
    {
        let map = TileMap { cells: Cells::new() };
        assert(map@ =~= Map::<Tile, T>::empty());
        map
    }

    /// The stored tiles are finitely many, as many as there are cells.
    proof fn lemma_count(&self)
        ensures
            self@.dom().finite(),
            self@.dom().len() == self.cells@.dom().len(),
    {
        self.cells.lemma_finite();
        let name = |cell: (i32, i32)| Tile { x: cell.0, y: cell.1 };
        assert(self.cells@.dom().map(name) =~= self@.dom()) by {
            assert forall|tile: Tile| self@.dom().contains(tile) implies self.cells@.dom().map(
                name,
            ).contains(tile) by {
                assert(name((tile.x, tile.y)) == tile);
            }
        }
        assert(vstd::relations::injective_on(name, self.cells@.dom()));
        vstd::set_lib::lemma_map_size(self.cells@.dom(), self@.dom(), name);
    }

    /// The stored tiles are finitely many.
    pub proof fn lemma_finite(&self)
        ensures
            self@.dom().finite(),
    {
        self.lemma_count();
    }

    /// How many tiles are stored.
    pub fn len(&self) -> (count: usize)
        ensures
            count == self@.dom().len(),
    {
        proof {
            self.lemma_count();
        }
        self.cells.len()
    }

    /// Whether nothing is stored.
    pub fn is_empty(&self) -> (empty: bool)
        ensures
            empty == (self@.dom().len() == 0),
    {
        self.len() == 0
    }

    /// Whether a value is stored for `coord`.
    pub fn contains_key(&self, coord: &Tile) -> (present: bool)
        ensures
            present == self@.contains_key(*coord),
    {
        self.cells.contains_key(coord.x, coord.y)
    }

    /// The value stored for `coord`, if there is one.
    pub fn get(&self, coord: &Tile) -> (found: Option<&T>)
        ensures
            match found {
                Some(data) => self@.contains_key(*coord) && *data == self@[*coord],
                None => !self@.contains_key(*coord),
            },
    {
        self.cells.get(coord.x, coord.y)
    }

    /// The value stored for `coord`, if there is one, to be changed in place.
    pub fn get_mut(&mut self, coord: &Tile) -> (found: Option<&mut T>)
        ensures
            match found {
                Some(data) => old(self)@.contains_key(*coord) && *data == old(self)@[*coord]
                    && final(self)@ == old(self)@.insert(*coord, *final(data)),
                None => !old(self)@.contains_key(*coord) && final(self)@ == old(self)@,
            },
    {
        proof {
            lemma_tiles_of_insert(self.cells@, *coord);
        }
        self.cells.get_mut(coord.x, coord.y)
    }

    /// Stores `data` for `coord`, and gives back what was stored there before.
    pub fn insert(&mut self, coord: Tile, data: T) -> (previous: Option<T>)
        ensures
            final(self)@ == old(self)@.insert(coord, data),
            match previous {
                Some(before) => old(self)@.contains_key(coord) && before == old(self)@[coord],
                None => !old(self)@.contains_key(coord),
            },
    {
        proof {
            lemma_tiles_of_insert(self.cells@, coord);
        }
        self.cells.insert(coord.x, coord.y, data)
    }

    /// Removes what is stored for `coord`, and gives it back.
    pub fn remove(&mut self, coord: &Tile) -> (removed: Option<T>)
        ensures
            final(self)@ == old(self)@.remove(*coord),
            match removed {
                Some(before) => old(self)@.contains_key(*coord) && before == old(self)@[*coord],
                None => !old(self)@.contains_key(*coord),
            },
    {
        let removed = self.cells.remove(coord.x, coord.y);
        assert(self@ =~= old(self)@.remove(*coord));
        removed
    }

    /// Removes everything.
    pub fn clear(&mut self)
        ensures
            final(self)@ == Map::<Tile, T>::empty(),
    {
        self.cells.clear();
        assert(self@ =~= Map::<Tile, T>::empty());
    }

    /// The coordinates of all stored tiles, each once, in no particular order.
    pub fn keys(&self) -> (coords: Vec<Tile>)
        ensures
            coords@.no_duplicates(),
            coords@.to_set() == self@.dom(),
    {
        let cells = self.cells.cells();
        let mut coords: Vec<Tile> = Vec::new();
        let mut i: usize = 0;
        while i < cells.len()
            invariant
                0 <= i <= cells.len(),
                coords.len() == i,
                forall|j: int| 0 <= j < i ==> coords[j] == (Tile { x: cells[j].0, y: cells[j].1 }),
            decreases cells.len() - i,
        {
            let cell = cells[i];
            coords.push(Tile::new(cell.0, cell.1));
            i += 1;
        }
        proof {
            assert(coords@.to_set() =~= self@.dom()) by {
                assert forall|tile: Tile| self@.dom().contains(tile) implies coords@.to_set().contains(
                    tile,
                ) by {
                    assert(cells@.to_set().contains((tile.x, tile.y)));
                    let j = choose|j: int| 0 <= j < cells.len() && cells[j] == (tile.x, tile.y);
                    assert(coords[j] == tile);
                }
                assert forall|tile: Tile| coords@.to_set().contains(tile) implies self@.dom().contains(
                    tile,
                ) by {
                    let j = choose|j: int| 0 <= j < coords.len() && coords[j] == tile;
                    assert(cells@.to_set().contains(cells[j]));
                }
            }
        }
        coords
    }
}


/// A value is in two sequences put together exactly when it is in one of
/// them.
proof fn lemma_concat_contains<A>(a: Seq<A>, b: Seq<A>, value: A)
    ensures
        (a + b).contains(value) <==> a.contains(value) || b.contains(value),
{
    if a.contains(value) {
        let i = choose|i: int| 0 <= i < a.len() && a[i] == value;
        assert((a + b)[i] == value);
    }
    if b.contains(value) {
        let i = choose|i: int| 0 <= i < b.len() && b[i] == value;
        assert((a + b)[a.len() + i] == value);
    }
    if (a + b).contains(value) {
        let i = choose|i: int| 0 <= i < (a + b).len() && (a + b)[i] == value;
        if i < a.len() {
            assert(a[i] == value);
        } else {
            assert(b[i - a.len()] == value);
        }
    }
}

/// A sequence without duplicates holds a value exactly when the set of its
/// values does.
proof fn lemma_listed<A>(list: Seq<A>, value: A)
    ensures
        list.contains(value) <==> list.to_set().contains(value),
{
}

/// The edge in direction `dir` at the cell `cell`.
spec fn edge_at(cell: (i32, i32), dir: CanonicalEdgeDir) -> Edge {
    Edge { x: cell.0, y: cell.1, dir }
}

/// What the cells of the edges of each direction hold, by edge coordinate.
spec fn edges_of<V>(
    northwest: Map<(i32, i32), V>,
    northeast: Map<(i32, i32), V>,
    east: Map<(i32, i32), V>,
) -> Map<Edge, V> {
    Map::new(
        |edge: Edge|
            match edge.dir {
                CanonicalEdgeDir::Northwest => northwest.contains_key((edge.x, edge.y)),
                CanonicalEdgeDir::Northeast => northeast.contains_key((edge.x, edge.y)),
                CanonicalEdgeDir::East => east.contains_key((edge.x, edge.y)),
            },
        |edge: Edge|
            match edge.dir {
                CanonicalEdgeDir::Northwest => northwest[(edge.x, edge.y)],
                CanonicalEdgeDir::Northeast => northeast[(edge.x, edge.y)],
                CanonicalEdgeDir::East => east[(edge.x, edge.y)],
            },
    )
}

/// Storing or removing a value at a cell of the direction `Northwest` changes
/// what is held for the edge of that direction at that cell, and nothing
/// else.
proof fn lemma_edges_of_northwest<V>(
    northwest: Map<(i32, i32), V>,
    northeast: Map<(i32, i32), V>,
    east: Map<(i32, i32), V>,
    cell: (i32, i32),
)
    ensures
        ({
            let before = edges_of(northwest, northeast, east);
            let edge = edge_at(cell, CanonicalEdgeDir::Northwest);
            &&& forall|value: V| #[trigger]
                edges_of(northwest.insert(cell, value), northeast, east) == before.insert(edge, value)
            &&& edges_of(northwest.remove(cell), northeast, east) == before.remove(edge)
        }),
{
    let before = edges_of(northwest, northeast, east);
    let edge = edge_at(cell, CanonicalEdgeDir::Northwest);
    assert forall|value: V| #[trigger]
        edges_of(northwest.insert(cell, value), northeast, east) == before.insert(edge, value) by {
        assert(edges_of(northwest.insert(cell, value), northeast, east) =~= before.insert(edge, value));
    }
    assert(edges_of(northwest.remove(cell), northeast, east) =~= before.remove(edge));
}

/// Storing or removing a value at a cell of the direction `Northeast` changes
/// what is held for the edge of that direction at that cell, and nothing
/// else.
proof fn lemma_edges_of_northeast<V>(
    northwest: Map<(i32, i32), V>,
    northeast: Map<(i32, i32), V>,
    east: Map<(i32, i32), V>,
    cell: (i32, i32),
)
    ensures
        ({
            let before = edges_of(northwest, northeast, east);
            let edge = edge_at(cell, CanonicalEdgeDir::Northeast);
            &&& forall|value: V| #[trigger]
                edges_of(northwest, northeast.insert(cell, value), east) == before.insert(edge, value)
            &&& edges_of(northwest, northeast.remove(cell), east) == before.remove(edge)
        }),
{
    let before = edges_of(northwest, northeast, east);
    let edge = edge_at(cell, CanonicalEdgeDir::Northeast);
    assert forall|value: V| #[trigger]
        edges_of(northwest, northeast.insert(cell, value), east) == before.insert(edge, value) by {
        assert(edges_of(northwest, northeast.insert(cell, value), east) =~= before.insert(edge, value));
    }
    assert(edges_of(northwest, northeast.remove(cell), east) =~= before.remove(edge));
}

/// Storing or removing a value at a cell of the direction `East` changes
/// what is held for the edge of that direction at that cell, and nothing
/// else.
proof fn lemma_edges_of_east<V>(
    northwest: Map<(i32, i32), V>,
    northeast: Map<(i32, i32), V>,
    east: Map<(i32, i32), V>,
    cell: (i32, i32),
)
    ensures
        ({
            let before = edges_of(northwest, northeast, east);
            let edge = edge_at(cell, CanonicalEdgeDir::East);
            &&& forall|value: V| #[trigger]
                edges_of(northwest, northeast, east.insert(cell, value)) == before.insert(edge, value)
            &&& edges_of(northwest, northeast, east.remove(cell)) == before.remove(edge)
        }),
{
    let before = edges_of(northwest, northeast, east);
    let edge = edge_at(cell, CanonicalEdgeDir::East);
    assert forall|value: V| #[trigger]
        edges_of(northwest, northeast, east.insert(cell, value)) == before.insert(edge, value) by {
        assert(edges_of(northwest, northeast, east.insert(cell, value)) =~= before.insert(edge, value));
    }
    assert(edges_of(northwest, northeast, east.remove(cell)) =~= before.remove(edge));
}

/// The edges in direction `dir` at `cells`, in the order of `cells`.
spec fn edges_at(cells: Seq<(i32, i32)>, dir: CanonicalEdgeDir) -> Seq<Edge> {
    Seq::new(cells.len(), |i: int| edge_at(cells[i], dir))
}

/// The edges at cells that are all different are all different, and they
/// are the edges of that direction at those cells.
proof fn lemma_edges_at(cells: Seq<(i32, i32)>, dir: CanonicalEdgeDir)
    requires
        cells.no_duplicates(),
    ensures
        edges_at(cells, dir).no_duplicates(),
        forall|coord: Edge|
            edges_at(cells, dir).contains(coord) <==> coord.dir == dir && cells.contains(
                (coord.x, coord.y),
            ),
{
    let listed = edges_at(cells, dir);
    assert forall|coord: Edge|
        listed.contains(coord) <==> coord.dir == dir && cells.contains((coord.x, coord.y)) by {
        if listed.contains(coord) {
            let i = choose|i: int| 0 <= i < listed.len() && listed[i] == coord;
            assert(cells[i] == (coord.x, coord.y));
        }
        if coord.dir == dir && cells.contains((coord.x, coord.y)) {
            let i = choose|i: int| 0 <= i < cells.len() && cells[i] == (coord.x, coord.y);
            assert(listed[i] == coord);
        }
    }
}

/// Adds to `coords` the edge in direction `dir` at each of `cells`.
fn append_edges(coords: &mut Vec<Edge>, cells: &Vec<(i32, i32)>, dir: CanonicalEdgeDir)
    ensures
        final(coords)@ == old(coords)@ + edges_at(cells@, dir),
{
    let mut i: usize = 0;
    while i < cells.len()
        invariant
            0 <= i <= cells.len(),
            coords@ == old(coords)@ + edges_at(cells@.take(i as int), dir),
        decreases cells.len() - i,
    {
        let cell = cells[i];
        coords.push(Edge { x: cell.0, y: cell.1, dir });
        assert(coords@ =~= old(coords)@ + edges_at(cells@.take(i + 1), dir));
        i += 1;
    }
    assert(cells@.take(cells.len() as int) =~= cells@);
}

/// The values stored for edges, by edge coordinate.
#[derive(Debug, Clone, Eq, PartialEq)]
pub struct EdgeMap<E> {
    northwest: Cells<E>,
    northeast: Cells<E>,
    east: Cells<E>,
}

impl<E> View for EdgeMap<E> {
    type V = Map<Edge, E>;

    closed spec fn view(&self) -> Map<Edge, E> {
        edges_of(self.northwest@, self.northeast@, self.east@)
    }
}

impl<E> EdgeMap<E> {
    /// A map that holds nothing.
    pub fn new() -> (map: Self)
        ensures
            map@ == Map::<Edge, E>::empty(),
    {
        let map = EdgeMap { northwest: Cells::new(), northeast: Cells::new(), east: Cells::new() };
        assert(map@ =~= Map::<Edge, E>::empty());
        map
    }

    /// The stored edges are finitely many: as many as the cells of all
    /// directions together.
    proof fn lemma_count(&self)
        ensures
            self@.dom().finite(),
            self@.dom().len() == self.northwest@.dom().len()
                + self.northeast@.dom().len()
                + self.east@.dom().len(),
    {
        let at_northwest = |cell: (i32, i32)| edge_at(cell, CanonicalEdgeDir::Northwest);
        let at_northeast = |cell: (i32, i32)| edge_at(cell, CanonicalEdgeDir::Northeast);
        let at_east = |cell: (i32, i32)| edge_at(cell, CanonicalEdgeDir::East);
        self.northwest.lemma_finite();
        self.northeast.lemma_finite();
        self.east.lemma_finite();
        let in_northwest = self.northwest@.dom().map(at_northwest);
        let in_northeast = self.northeast@.dom().map(at_northeast);
        let in_east = self.east@.dom().map(at_east);
        assert(vstd::relations::injective_on(at_northwest, self.northwest@.dom()));
        vstd::set_lib::lemma_map_size(self.northwest@.dom(), in_northwest, at_northwest);
        assert(vstd::relations::injective_on(at_northeast, self.northeast@.dom()));
        vstd::set_lib::lemma_map_size(self.northeast@.dom(), in_northeast, at_northeast);
        assert(vstd::relations::injective_on(at_east, self.east@.dom()));
        vstd::set_lib::lemma_map_size(self.east@.dom(), in_east, at_east);
        assert(self@.dom() =~= in_northwest + in_northeast + in_east) by {
            let all = in_northwest + in_northeast + in_east;
            assert forall|coord: Edge| self@.dom().contains(coord) implies all.contains(coord) by {
                match coord.dir {
                    CanonicalEdgeDir::Northwest => {
                        assert(at_northwest((coord.x, coord.y)) == coord);
                    },
                    CanonicalEdgeDir::Northeast => {
                        assert(at_northeast((coord.x, coord.y)) == coord);
                    },
                    CanonicalEdgeDir::East => {
                        assert(at_east((coord.x, coord.y)) == coord);
                    },
                }
            }
        }
        assert(in_northwest.disjoint(in_northeast));
        vstd::set_lib::lemma_set_disjoint_lens(in_northwest, in_northeast);
        assert((in_northwest + in_northeast).disjoint(in_east));
        assert((in_northwest + in_northeast).finite());
        vstd::set_lib::lemma_set_disjoint_lens(in_northwest + in_northeast, in_east);
    }

    /// The stored edges are finitely many.
    pub proof fn lemma_finite(&self)
        ensures
            self@.dom().finite(),
    {
        self.lemma_count();
    }

    /// How many edges are stored, as far as `usize` can tell.
    pub fn len(&self) -> (count: usize)
        ensures
            count == if self@.dom().len() <= usize::MAX {
                self@.dom().len() as int
            } else {
                usize::MAX as int
            },
    {
        proof {
            self.lemma_count();
        }
        self.northwest.len().saturating_add(self.northeast.len()).saturating_add(self.east.len())
    }

    /// Whether nothing is stored.
    pub fn is_empty(&self) -> (empty: bool)
        ensures
            empty == (self@.dom().len() == 0),
    {
        self.len() == 0
    }

    /// Whether a value is stored for `coord`.
    pub fn contains_key(&self, coord: &Edge) -> (present: bool)
        ensures
            present == self@.contains_key(*coord),
    {
        match coord.dir {
            CanonicalEdgeDir::Northwest => self.northwest.contains_key(coord.x, coord.y),
            CanonicalEdgeDir::Northeast => self.northeast.contains_key(coord.x, coord.y),
            CanonicalEdgeDir::East => self.east.contains_key(coord.x, coord.y),
        }
    }

    /// The value stored for `coord`, if there is one.
    pub fn get(&self, coord: &Edge) -> (found: Option<&E>)
        ensures
            match found {
                Some(data) => self@.contains_key(*coord) && *data == self@[*coord],
                None => !self@.contains_key(*coord),
            },
    {
        match coord.dir {
            CanonicalEdgeDir::Northwest => self.northwest.get(coord.x, coord.y),
            CanonicalEdgeDir::Northeast => self.northeast.get(coord.x, coord.y),
            CanonicalEdgeDir::East => self.east.get(coord.x, coord.y),
        }
    }

    /// The value stored for `coord`, if there is one, to be changed in place.
    pub fn get_mut(&mut self, coord: &Edge) -> (found: Option<&mut E>)
        ensures
            match found {
                Some(data) => old(self)@.contains_key(*coord) && *data == old(self)@[*coord]
                    && final(self)@ == old(self)@.insert(*coord, *final(data)),
                None => !old(self)@.contains_key(*coord) && final(self)@ == old(self)@,
            },
    {
        proof {
            lemma_edges_of_northwest(self.northwest@, self.northeast@, self.east@, (coord.x, coord.y));
            lemma_edges_of_northeast(self.northwest@, self.northeast@, self.east@, (coord.x, coord.y));
            lemma_edges_of_east(self.northwest@, self.northeast@, self.east@, (coord.x, coord.y));
        }
        match coord.dir {
            CanonicalEdgeDir::Northwest => self.northwest.get_mut(coord.x, coord.y),
            CanonicalEdgeDir::Northeast => self.northeast.get_mut(coord.x, coord.y),
            CanonicalEdgeDir::East => self.east.get_mut(coord.x, coord.y),
        }
    }

    /// Stores `data` for `coord`, and gives back what was stored there before.
    pub fn insert(&mut self, coord: Edge, data: E) -> (previous: Option<E>)
        ensures
            final(self)@ == old(self)@.insert(coord, data),
            match previous {
                Some(before) => old(self)@.contains_key(coord) && before == old(self)@[coord],
                None => !old(self)@.contains_key(coord),
            },
    {
        proof {
            lemma_edges_of_northwest(self.northwest@, self.northeast@, self.east@, (coord.x, coord.y));
            lemma_edges_of_northeast(self.northwest@, self.northeast@, self.east@, (coord.x, coord.y));
            lemma_edges_of_east(self.northwest@, self.northeast@, self.east@, (coord.x, coord.y));
        }
        match coord.dir {
            CanonicalEdgeDir::Northwest => self.northwest.insert(coord.x, coord.y, data),
            CanonicalEdgeDir::Northeast => self.northeast.insert(coord.x, coord.y, data),
            CanonicalEdgeDir::East => self.east.insert(coord.x, coord.y, data),
        }
    }

    /// Removes what is stored for `coord`, and gives it back.
    pub fn remove(&mut self, coord: &Edge) -> (removed: Option<E>)
        ensures
            final(self)@ == old(self)@.remove(*coord),
            match removed {
                Some(before) => old(self)@.contains_key(*coord) && before == old(self)@[*coord],
                None => !old(self)@.contains_key(*coord),
            },
    {
        proof {
            lemma_edges_of_northwest(self.northwest@, self.northeast@, self.east@, (coord.x, coord.y));
            lemma_edges_of_northeast(self.northwest@, self.northeast@, self.east@, (coord.x, coord.y));
            lemma_edges_of_east(self.northwest@, self.northeast@, self.east@, (coord.x, coord.y));
        }
        match coord.dir {
            CanonicalEdgeDir::Northwest => self.northwest.remove(coord.x, coord.y),
            CanonicalEdgeDir::Northeast => self.northeast.remove(coord.x, coord.y),
            CanonicalEdgeDir::East => self.east.remove(coord.x, coord.y),
        }
    }

    /// Removes everything.
    pub fn clear(&mut self)
        ensures
            final(self)@ == Map::<Edge, E>::empty(),
    {
        self.northwest.clear();
        self.northeast.clear();
        self.east.clear();
        assert(self@ =~= Map::<Edge, E>::empty());
    }

    /// The coordinates of all stored edges, each once, in no particular order.
    pub fn keys(&self) -> (coords: Vec<Edge>)
        ensures
            coords@.no_duplicates(),
            coords@.to_set() == self@.dom(),
    {
        let northwest = self.northwest.cells();
        let northeast = self.northeast.cells();
        let east = self.east.cells();
        let mut coords: Vec<Edge> = Vec::new();
        append_edges(&mut coords, &northwest, CanonicalEdgeDir::Northwest);
        append_edges(&mut coords, &northeast, CanonicalEdgeDir::Northeast);
        append_edges(&mut coords, &east, CanonicalEdgeDir::East);
        proof {
            let in_northwest = edges_at(northwest@, CanonicalEdgeDir::Northwest);
            let in_northeast = edges_at(northeast@, CanonicalEdgeDir::Northeast);
            let in_east = edges_at(east@, CanonicalEdgeDir::East);
            lemma_edges_at(northwest@, CanonicalEdgeDir::Northwest);
            lemma_edges_at(northeast@, CanonicalEdgeDir::Northeast);
            lemma_edges_at(east@, CanonicalEdgeDir::East);
            let first_two = in_northwest + in_northeast;
            assert(coords@ =~= first_two + in_east);
            vstd::seq_lib::lemma_no_dup_in_concat(in_northwest, in_northeast);
            assert forall|i: int, j: int|
                0 <= i < first_two.len() && 0 <= j < in_east.len() implies first_two[i] != in_east[j] by {
                lemma_concat_contains(in_northwest, in_northeast, first_two[i]);
                assert(first_two.contains(first_two[i]));
                assert(in_east.contains(in_east[j]));
            }
            vstd::seq_lib::lemma_no_dup_in_concat(first_two, in_east);
            assert(coords@.to_set() =~= self@.dom()) by {
                assert forall|coord: Edge|
                    coords@.contains(coord) <==> self@.dom().contains(coord) by {
                    lemma_concat_contains(first_two, in_east, coord);
                    lemma_concat_contains(in_northwest, in_northeast, coord);
                    lemma_listed(northwest@, (coord.x, coord.y));
                    lemma_listed(northeast@, (coord.x, coord.y));
                    lemma_listed(east@, (coord.x, coord.y));
                }
            }
        }
        coords
    }
}

/// The corner in direction `dir` at the cell `cell`.
spec fn corner_at(cell: (i32, i32), dir: CanonicalCornerDir) -> Corner {
    Corner { x: cell.0, y: cell.1, dir }
}

/// What the cells of the corners of each direction hold, by corner coordinate.
spec fn corners_of<V>(
    north: Map<(i32, i32), V>,
    northeast: Map<(i32, i32), V>,
) -> Map<Corner, V> {
    Map::new(
        |corner: Corner|
            match corner.dir {
                CanonicalCornerDir::North => north.contains_key((corner.x, corner.y)),
                CanonicalCornerDir::Northeast => northeast.contains_key((corner.x, corner.y)),
            },
        |corner: Corner|
            match corner.dir {
                CanonicalCornerDir::North => north[(corner.x, corner.y)],
                CanonicalCornerDir::Northeast => northeast[(corner.x, corner.y)],
            },
    )
}

/// Storing or removing a value at a cell of the direction `North` changes
/// what is held for the corner of that direction at that cell, and nothing
/// else.
proof fn lemma_corners_of_north<V>(
    north: Map<(i32, i32), V>,
    northeast: Map<(i32, i32), V>,
    cell: (i32, i32),
)
    ensures
        ({
            let before = corners_of(north, northeast);
            let corner = corner_at(cell, CanonicalCornerDir::North);
            &&& forall|value: V| #[trigger]
                corners_of(north.insert(cell, value), northeast) == before.insert(corner, value)
            &&& corners_of(north.remove(cell), northeast) == before.remove(corner)
        }),
{
    let before = corners_of(north, northeast);
    let corner = corner_at(cell, CanonicalCornerDir::North);
    assert forall|value: V| #[trigger]
        corners_of(north.insert(cell, value), northeast) == before.insert(corner, value) by {
        assert(corners_of(north.insert(cell, value), northeast) =~= before.insert(corner, value));
    }
    assert(corners_of(north.remove(cell), northeast) =~= before.remove(corner));
}

/// Storing or removing a value at a cell of the direction `Northeast` changes
/// what is held for the corner of that direction at that cell, and nothing
/// else.
proof fn lemma_corners_of_northeast<V>(
    north: Map<(i32, i32), V>,
    northeast: Map<(i32, i32), V>,
    cell: (i32, i32),
)
    ensures
        ({
            let before = corners_of(north, northeast);
            let corner = corner_at(cell, CanonicalCornerDir::Northeast);
            &&& forall|value: V| #[trigger]
                corners_of(north, northeast.insert(cell, value)) == before.insert(corner, value)
            &&& corners_of(north, northeast.remove(cell)) == before.remove(corner)
        }),
{
    let before = corners_of(north, northeast);
    let corner = corner_at(cell, CanonicalCornerDir::Northeast);
    assert forall|value: V| #[trigger]
        corners_of(north, northeast.insert(cell, value)) == before.insert(corner, value) by {
        assert(corners_of(north, northeast.insert(cell, value)) =~= before.insert(corner, value));
    }
    assert(corners_of(north, northeast.remove(cell)) =~= before.remove(corner));
}

/// The corners in direction `dir` at `cells`, in the order of `cells`.
spec fn corners_at(cells: Seq<(i32, i32)>, dir: CanonicalCornerDir) -> Seq<Corner> {
    Seq::new(cells.len(), |i: int| corner_at(cells[i], dir))
}

/// The corners at cells that are all different are all different, and they
/// are the corners of that direction at those cells.
proof fn lemma_corners_at(cells: Seq<(i32, i32)>, dir: CanonicalCornerDir)
    requires
        cells.no_duplicates(),
    ensures
        corners_at(cells, dir).no_duplicates(),
        forall|coord: Corner|
            corners_at(cells, dir).contains(coord) <==> coord.dir == dir && cells.contains(
                (coord.x, coord.y),
            ),
{
    let listed = corners_at(cells, dir);
    assert forall|coord: Corner|
        listed.contains(coord) <==> coord.dir == dir && cells.contains((coord.x, coord.y)) by {
        if listed.contains(coord) {
            let i = choose|i: int| 0 <= i < listed.len() && listed[i] == coord;
            assert(cells[i] == (coord.x, coord.y));
        }
        if coord.dir == dir && cells.contains((coord.x, coord.y)) {
            let i = choose|i: int| 0 <= i < cells.len() && cells[i] == (coord.x, coord.y);
            assert(listed[i] == coord);
        }
    }
}

/// Adds to `coords` the corner in direction `dir` at each of `cells`.
fn append_corners(coords: &mut Vec<Corner>, cells: &Vec<(i32, i32)>, dir: CanonicalCornerDir)
    ensures
        final(coords)@ == old(coords)@ + corners_at(cells@, dir),
{
    let mut i: usize = 0;
    while i < cells.len()
        invariant
            0 <= i <= cells.len(),
            coords@ == old(coords)@ + corners_at(cells@.take(i as int), dir),
        decreases cells.len() - i,
    {
        let cell = cells[i];
        coords.push(Corner { x: cell.0, y: cell.1, dir });
        assert(coords@ =~= old(coords)@ + corners_at(cells@.take(i + 1), dir));
        i += 1;
    }
    assert(cells@.take(cells.len() as int) =~= cells@);
}

/// The values stored for corners, by corner coordinate.
#[derive(Debug, Clone, Eq, PartialEq)]
pub struct CornerMap<C> {
    north: Cells<C>,
    northeast: Cells<C>,
}

impl<C> View for CornerMap<C> {
    type V = Map<Corner, C>;

    closed spec fn view(&self) -> Map<Corner, C> {
        corners_of(self.north@, self.northeast@)
    }
}

impl<C> CornerMap<C> {
    /// A map that holds nothing.
    pub fn new() -> (map: Self)
        ensures
            map@ == Map::<Corner, C>::empty(),
    {
        let map = CornerMap { north: Cells::new(), northeast: Cells::new() };
        assert(map@ =~= Map::<Corner, C>::empty());
        map
    }

    /// The stored corners are finitely many: as many as the cells of all
    /// directions together.
    proof fn lemma_count(&self)
        ensures
            self@.dom().finite(),
            self@.dom().len() == self.north@.dom().len()
                + self.northeast@.dom().len(),
    {
        let at_north = |cell: (i32, i32)| corner_at(cell, CanonicalCornerDir::North);
        let at_northeast = |cell: (i32, i32)| corner_at(cell, CanonicalCornerDir::Northeast);
        self.north.lemma_finite();
        self.northeast.lemma_finite();
        let in_north = self.north@.dom().map(at_north);
        let in_northeast = self.northeast@.dom().map(at_northeast);
        assert(vstd::relations::injective_on(at_north, self.north@.dom()));
        vstd::set_lib::lemma_map_size(self.north@.dom(), in_north, at_north);
        assert(vstd::relations::injective_on(at_northeast, self.northeast@.dom()));
        vstd::set_lib::lemma_map_size(self.northeast@.dom(), in_northeast, at_northeast);
        assert(self@.dom() =~= in_north + in_northeast) by {
            let all = in_north + in_northeast;
            assert forall|coord: Corner| self@.dom().contains(coord) implies all.contains(coord) by {
                match coord.dir {
                    CanonicalCornerDir::North => {
                        assert(at_north((coord.x, coord.y)) == coord);
                    },
                    CanonicalCornerDir::Northeast => {
                        assert(at_northeast((coord.x, coord.y)) == coord);
                    },
                }
            }
        }
        assert(in_north.disjoint(in_northeast));
        vstd::set_lib::lemma_set_disjoint_lens(in_north, in_northeast);
    }

    /// The stored corners are finitely many.
    pub proof fn lemma_finite(&self)
        ensures
            self@.dom().finite(),
    {
        self.lemma_count();
    }

    /// How many corners are stored, as far as `usize` can tell.
    pub fn len(&self) -> (count: usize)
        ensures
            count == if self@.dom().len() <= usize::MAX {
                self@.dom().len() as int
            } else {
                usize::MAX as int
            },
    {
        proof {
            self.lemma_count();
        }
        self.north.len().saturating_add(self.northeast.len())
    }

    /// Whether nothing is stored.
    pub fn is_empty(&self) -> (empty: bool)
        ensures
            empty == (self@.dom().len() == 0),
    {
        self.len() == 0
    }

    /// Whether a value is stored for `coord`.
    pub fn contains_key(&self, coord: &Corner) -> (present: bool)
        ensures
            present == self@.contains_key(*coord),
    {
        match coord.dir {
            CanonicalCornerDir::North => self.north.contains_key(coord.x, coord.y),
            CanonicalCornerDir::Northeast => self.northeast.contains_key(coord.x, coord.y),
        }
    }

    /// The value stored for `coord`, if there is one.
    pub fn get(&self, coord: &Corner) -> (found: Option<&C>)
        ensures
            match found {
                Some(data) => self@.contains_key(*coord) && *data == self@[*coord],
                None => !self@.contains_key(*coord),
            },
    {
        match coord.dir {
            CanonicalCornerDir::North => self.north.get(coord.x, coord.y),
            CanonicalCornerDir::Northeast => self.northeast.get(coord.x, coord.y),
        }
    }

    /// The value stored for `coord`, if there is one, to be changed in place.
    pub fn get_mut(&mut self, coord: &Corner) -> (found: Option<&mut C>)
        ensures
            match found {
                Some(data) => old(self)@.contains_key(*coord) && *data == old(self)@[*coord]
                    && final(self)@ == old(self)@.insert(*coord, *final(data)),
                None => !old(self)@.contains_key(*coord) && final(self)@ == old(self)@,
            },
    {
        proof {
            lemma_corners_of_north(self.north@, self.northeast@, (coord.x, coord.y));
            lemma_corners_of_northeast(self.north@, self.northeast@, (coord.x, coord.y));
        }
        match coord.dir {
            CanonicalCornerDir::North => self.north.get_mut(coord.x, coord.y),
            CanonicalCornerDir::Northeast => self.northeast.get_mut(coord.x, coord.y),
        }
    }

    /// Stores `data` for `coord`, and gives back what was stored there before.
    pub fn insert(&mut self, coord: Corner, data: C) -> (previous: Option<C>)
        ensures
            final(self)@ == old(self)@.insert(coord, data),
            match previous {
                Some(before) => old(self)@.contains_key(coord) && before == old(self)@[coord],
                None => !old(self)@.contains_key(coord),
            },
    {
        proof {
            lemma_corners_of_north(self.north@, self.northeast@, (coord.x, coord.y));
            lemma_corners_of_northeast(self.north@, self.northeast@, (coord.x, coord.y));
        }
        match coord.dir {
            CanonicalCornerDir::North => self.north.insert(coord.x, coord.y, data),
            CanonicalCornerDir::Northeast => self.northeast.insert(coord.x, coord.y, data),
        }
    }

    /// Removes what is stored for `coord`, and gives it back.
    pub fn remove(&mut self, coord: &Corner) -> (removed: Option<C>)
        ensures
            final(self)@ == old(self)@.remove(*coord),
            match removed {
                Some(before) => old(self)@.contains_key(*coord) && before == old(self)@[*coord],
                None => !old(self)@.contains_key(*coord),
            },
    {
        proof {
            lemma_corners_of_north(self.north@, self.northeast@, (coord.x, coord.y));
            lemma_corners_of_northeast(self.north@, self.northeast@, (coord.x, coord.y));
        }
        match coord.dir {
            CanonicalCornerDir::North => self.north.remove(coord.x, coord.y),
            CanonicalCornerDir::Northeast => self.northeast.remove(coord.x, coord.y),
        }
    }

    /// Removes everything.
    pub fn clear(&mut self)
        ensures
            final(self)@ == Map::<Corner, C>::empty(),
    {
        self.north.clear();
        self.northeast.clear();
        assert(self@ =~= Map::<Corner, C>::empty());
    }

    /// The coordinates of all stored corners, each once, in no particular order.
    pub fn keys(&self) -> (coords: Vec<Corner>)
        ensures
            coords@.no_duplicates(),
            coords@.to_set() == self@.dom(),
    {
        let north = self.north.cells();
        let northeast = self.northeast.cells();
        let mut coords: Vec<Corner> = Vec::new();
        append_corners(&mut coords, &north, CanonicalCornerDir::North);
        append_corners(&mut coords, &northeast, CanonicalCornerDir::Northeast);
        proof {
            let in_north = corners_at(north@, CanonicalCornerDir::North);
            let in_northeast = corners_at(northeast@, CanonicalCornerDir::Northeast);
            lemma_corners_at(north@, CanonicalCornerDir::North);
            lemma_corners_at(northeast@, CanonicalCornerDir::Northeast);
            assert(coords@ =~= in_north + in_northeast);
            assert forall|i: int, j: int|
                0 <= i < in_north.len() && 0 <= j < in_northeast.len() implies in_north[i]
                != in_northeast[j] by {
                assert(in_north.contains(in_north[i]));
                assert(in_northeast.contains(in_northeast[j]));
            }
            vstd::seq_lib::lemma_no_dup_in_concat(in_north, in_northeast);
            assert(coords@.to_set() =~= self@.dom()) by {
                assert forall|coord: Corner|
                    coords@.contains(coord) <==> self@.dom().contains(coord) by {
                    lemma_concat_contains(in_north, in_northeast, coord);
                    lemma_listed(north@, (coord.x, coord.y));
                    lemma_listed(northeast@, (coord.x, coord.y));
                }
            }
        }
        coords
    }
}

/// Whether `map` holds a value for a key.
pub open spec fn holds<K, V>(map: Map<K, V>) -> spec_fn(K) -> bool {
    |key: K| map.contains_key(key)
}

/// Those of `keys` for which `map` holds a value, in the order of `keys`.
pub open spec fn present<K, V>(map: Map<K, V>, keys: Seq<K>) -> Seq<K> {
    keys.filter(holds(map))
}

/// A key is among the present ones exactly when it is one of `keys` and
/// `map` holds a value for it.
pub proof fn lemma_present_contains<K, V>(map: Map<K, V>, keys: Seq<K>, key: K)
    ensures
        present(map, keys).contains(key) <==> keys.contains(key) && map.contains_key(key),
{
    if present(map, keys).contains(key) {
        let i = choose|i: int| 0 <= i < present(map, keys).len() && present(map, keys)[i] == key;
        keys.lemma_filter_pred(holds(map), i);
        keys.lemma_filter_contains_rev(holds(map), key);
    }
    if keys.contains(key) && map.contains_key(key) {
        let i = choose|i: int| 0 <= i < keys.len() && keys[i] == key;
        keys.lemma_filter_contains(holds(map), i);
    }
}

/// A grid of values for tiles, edges and corners, each kind in a map of its
/// own.
#[derive(Debug, Clone, Eq, PartialEq)]
pub struct HexGrid<T, E, C> {
    pub tiles: TileMap<T>,
    pub edges: EdgeMap<E>,
    pub corners: CornerMap<C>,
}

impl<T, E, C> HexGrid<T, E, C> {
    /// A grid that holds nothing.
    pub fn new() -> (grid: Self)
        ensures
            grid.tiles@ == Map::<Tile, T>::empty(),
            grid.edges@ == Map::<Edge, E>::empty(),
            grid.corners@ == Map::<Corner, C>::empty(),
    {
        HexGrid { tiles: TileMap::new(), edges: EdgeMap::new(), corners: CornerMap::new() }
    }

    /// The tiles that touch `coords` and are stored in the grid, each with its
    /// value, in the order in which `coords` names its neighbors.
    pub fn get_tile_neighbors<CoordType: HexCoord>(&self, coords: &CoordType) -> (found: Vec<
        (Tile, &T),
    >)
        requires
            coords.interior(),
        ensures
            found@.len() == present(self.tiles@, coords.tile_neighbors()).len(),
            forall|i: int|
                0 <= i < found@.len() ==> (#[trigger] found@[i]).0 == present(
                    self.tiles@,
                    coords.tile_neighbors(),
                )[i] && *found@[i].1 == self.tiles@[found@[i].0],
    {
        let neighbors = coords.get_tile_neighbors();
        let mut found: Vec<(Tile, &T)> = Vec::new();
        let mut i: usize = 0;
        while i < neighbors.len()
            invariant
                0 <= i <= neighbors.len(),
                found@.len() == present(self.tiles@, neighbors@.take(i as int)).len(),
                forall|j: int|
                    0 <= j < found@.len() ==> (#[trigger] found@[j]).0 == present(
                        self.tiles@,
                        neighbors@.take(i as int),
                    )[j] && *found@[j].1 == self.tiles@[found@[j].0],
            decreases neighbors.len() - i,
        {
            let coord = neighbors[i];
            proof {
                neighbors@.take(i as int).lemma_filter_push(coord, holds(self.tiles@));
                assert(neighbors@.take(i + 1) =~= neighbors@.take(i as int).push(coord));
            }
            match self.tiles.get(&coord) {
                Some(data) => {
                    found.push((coord, data));
                },
                None => {},
            }
            i += 1;
        }
        assert(neighbors@.take(neighbors.len() as int) =~= neighbors@);
        found
    }

    /// The edges that touch `coords` and are stored in the grid, each with its
    /// value, in the order in which `coords` names its neighbors.
    pub fn get_edge_neighbors<CoordType: HexCoord>(&self, coords: &CoordType) -> (found: Vec<
        (Edge, &E),
    >)
        requires
            coords.interior(),
        ensures
            found@.len() == present(self.edges@, coords.edge_neighbors()).len(),
            forall|i: int|
                0 <= i < found@.len() ==> (#[trigger] found@[i]).0 == present(
                    self.edges@,
                    coords.edge_neighbors(),
                )[i] && *found@[i].1 == self.edges@[found@[i].0],
    {
        let neighbors = coords.get_edge_neighbors();
        let mut found: Vec<(Edge, &E)> = Vec::new();
        let mut i: usize = 0;
        while i < neighbors.len()
            invariant
                0 <= i <= neighbors.len(),
                found@.len() == present(self.edges@, neighbors@.take(i as int)).len(),
                forall|j: int|
                    0 <= j < found@.len() ==> (#[trigger] found@[j]).0 == present(
                        self.edges@,
                        neighbors@.take(i as int),
                    )[j] && *found@[j].1 == self.edges@[found@[j].0],
            decreases neighbors.len() - i,
        {
            let coord = neighbors[i];
            proof {
                neighbors@.take(i as int).lemma_filter_push(coord, holds(self.edges@));
                assert(neighbors@.take(i + 1) =~= neighbors@.take(i as int).push(coord));
            }
            match self.edges.get(&coord) {
                Some(data) => {
                    found.push((coord, data));
                },
                None => {},
            }
            i += 1;
        }
        assert(neighbors@.take(neighbors.len() as int) =~= neighbors@);
        found
    }

    /// The corners that touch `coords` and are stored in the grid, each with
    /// its value, in the order in which `coords` names its neighbors.
    pub fn get_corner_neighbors<CoordType: HexCoord>(&self, coords: &CoordType) -> (found: Vec<
        (Corner, &C),
    >)
        requires
            coords.interior(),
        ensures
            found@.len() == present(self.corners@, coords.corner_neighbors()).len(),
            forall|i: int|
                0 <= i < found@.len() ==> (#[trigger] found@[i]).0 == present(
                    self.corners@,
                    coords.corner_neighbors(),
                )[i] && *found@[i].1 == self.corners@[found@[i].0],
    {
        let neighbors = coords.get_corner_neighbors();
        let mut found: Vec<(Corner, &C)> = Vec::new();
        let mut i: usize = 0;
        while i < neighbors.len()
            invariant
                0 <= i <= neighbors.len(),
                found@.len() == present(self.corners@, neighbors@.take(i as int)).len(),
                forall|j: int|
                    0 <= j < found@.len() ==> (#[trigger] found@[j]).0 == present(
                        self.corners@,
                        neighbors@.take(i as int),
                    )[j] && *found@[j].1 == self.corners@[found@[j].0],
            decreases neighbors.len() - i,
        {
            let coord = neighbors[i];
            proof {
                neighbors@.take(i as int).lemma_filter_push(coord, holds(self.corners@));
                assert(neighbors@.take(i + 1) =~= neighbors@.take(i as int).push(coord));
            }
            match self.corners.get(&coord) {
                Some(data) => {
                    found.push((coord, data));
                },
                None => {},
            }
            i += 1;
        }
        assert(neighbors@.take(neighbors.len() as int) =~= neighbors@);
        found
    }
}

} // verus!
