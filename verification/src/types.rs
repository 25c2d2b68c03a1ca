//! The data kept on the tiles, edges and corners of a board, and the cards
//! that players draw.

use vstd::prelude::*;
use crate::player::PlayerID;

verus! {

/// A type of resource, for use in building or trading.
#[derive(Debug, Eq, PartialEq, Hash, Copy, Clone, Structural)]
pub enum Resource {
    Wheat,
    Sheep,
    Clay,
    Stone,
    Wood,
    /// Only some variants of the game have gold.
    Gold,
}

/// The terrain of a tile.
#[derive(Debug, Eq, PartialEq, Hash, Copy, Clone, Structural)]
pub enum TileType {
    Resource(Resource),
    Desert,
    Ocean,
}

/// What a board holds for one tile.
#[derive(Debug, Eq, PartialEq, Hash, Copy, Clone, Structural)]
pub struct Tile {
    pub tile_type: TileType,
    /// The number token on the tile, once one has been placed.
    pub number: Option<i32>,
    /// Whether the thief stands on this tile (the pirate, if it is ocean).
    pub thief: bool,
    /// Whether the tile lies face up. In some variants most tiles start face
    /// down and are revealed when someone builds near them.
    pub faceup: bool,
}

/// What a port accepts in trade.
#[derive(Debug, Eq, PartialEq, Hash, Copy, Clone, Structural)]
pub enum PortResource {
    /// Any resource.
    Any,
    /// Only the given resource.
    One(Resource),
}

/// A port: how many resources of which kind it takes, and how many it gives.
#[derive(Debug, Eq, PartialEq, Hash, Copy, Clone, Structural)]
pub struct Port {
    pub resource_type: PortResource,
    pub cost: i32,
    pub reward: i32,
}

/// What is built along an edge.
#[derive(Debug, Eq, PartialEq, Hash, Copy, Clone, Structural)]
pub enum Road {
    /// Nothing is built on this edge.
    Empty,
    /// A road of the given player.
    Road(PlayerID),
    /// A ship of the given player.
    Ship(PlayerID),
}

/// What a board holds for one edge.
#[derive(Debug, Eq, PartialEq, Hash, Copy, Clone, Structural)]
pub struct Edge {
    pub port: Option<Port>,
    pub road: Road,
}

/// What is built on a corner.
#[derive(Debug, Eq, PartialEq, Hash, Copy, Clone, Structural)]
pub enum Settlement {
    /// Nothing is built on this corner.
    Empty,
    /// A settlement of the given player.
    Settlement(PlayerID),
    /// A city of the given player.
    City(PlayerID),
}

/// What a board holds for one corner.
#[derive(Debug, Eq, PartialEq, Hash, Copy, Clone, Structural)]
pub struct Corner {
    pub settlement: Settlement,
}

/// A development card.
#[derive(Debug, Eq, PartialEq, Hash, Copy, Clone, Structural)]
pub enum DevelopmentCard {
    VictoryPoint,
    Knight,
    RoadBuilding,
    YearOfPlenty,
    Monopoly,
}

} // verus!
