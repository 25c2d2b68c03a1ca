//! A player: what they hold and what they can still build.

use vstd::prelude::*;
use std::collections::HashMap;
use crate::configuration::Rules;
use crate::types::DevelopmentCard;

verus! {

broadcast use vstd::std_specs::hash::group_hash_axioms;

/// What tells one player from another.
pub type PlayerID = u64;

/// The color of a player's pieces: red, green and blue, eight bits each.
pub type PlayerColor = u32;

/// The resource cards in a player's hand, by kind.
#[derive(Debug, Clone, Eq, PartialEq)]
pub struct Resources {
    pub wheat: u32,
    pub sheep: u32,
    pub wood: u32,
    pub clay: u32,
    pub rocks: u32,
    pub gold: u32,
}

impl Resources {
    /// The hand that holds no card of any kind.
    pub open spec fn empty() -> Resources {
        Resources { wheat: 0, sheep: 0, wood: 0, clay: 0, rocks: 0, gold: 0 }
    }

    /// An empty hand.
    pub fn new() -> (resources: Resources)
        ensures
            resources == Resources::empty(),
    {
        Resources { wheat: 0, sheep: 0, wood: 0, clay: 0, rocks: 0, gold: 0 }
    }
}

/// A player: the cards and resources in their hand, and the pieces that they
/// can still build.
#[derive(Debug, Clone, Eq, PartialEq)]
pub struct Player {
    id: u64,
    pub color: PlayerColor,
    pub hidden_devcards: Vec<DevelopmentCard>,
    pub visible_devcards: Vec<DevelopmentCard>,
    pub resources: Resources,
    pub roads: u32,
    pub ships: u32,
    pub settlements: u32,
    pub cities: u32,
}

/// A player as a plain value: what `Player` holds, the identifier included.
pub struct PlayerView {
    pub id: PlayerID,
    pub color: PlayerColor,
    pub hidden_devcards: Seq<DevelopmentCard>,
    pub visible_devcards: Seq<DevelopmentCard>,
    pub resources: Resources,
    pub roads: u32,
    pub ships: u32,
    pub settlements: u32,
    pub cities: u32,
}

impl View for Player {
    type V = PlayerView;

    closed spec fn view(&self) -> PlayerView {
        PlayerView {
            id: self.id,
            color: self.color,
            hidden_devcards: self.hidden_devcards@,
            visible_devcards: self.visible_devcards@,
            resources: self.resources,
            roads: self.roads,
            ships: self.ships,
            settlements: self.settlements,
            cities: self.cities,
        }
    }
}

impl Player {
    /// A player at the start of a game: no cards, no resources, and all the
    /// pieces that the rules give to each player.
    pub fn new(id: u64, color: PlayerColor, config: &Rules) -> (player: Player)
        ensures
            player@ == (PlayerView {
                id,
                color,
                hidden_devcards: Seq::empty(),
                visible_devcards: Seq::empty(),
                resources: Resources::empty(),
                roads: config.road_count,
                ships: config.ship_count,
                settlements: config.settlement_count,
                cities: config.city_count,
            }),
    {
        Player {
            id,
            color,
            hidden_devcards: Vec::new(),
            visible_devcards: Vec::new(),
            resources: Resources::new(),
            roads: config.road_count,
            ships: config.ship_count,
            settlements: config.settlement_count,
            cities: config.city_count,
        }
    }

    /// The identifier that the player was created with.
    pub fn id(&self) -> (id: PlayerID)
        ensures
            id == self@.id,
    {
        self.id
    }
}


/// The color of each player by identifier. Where two players have the same
/// identifier, the color is that of the later one.
pub open spec fn colors_of(players: Seq<Player>) -> Map<PlayerID, PlayerColor>
    decreases players.len(),
{
    if players.len() == 0 {
        Map::empty()
    } else {
        colors_of(players.drop_last()).insert(players.last()@.id, players.last()@.color)
    }
}

/// The color of each player by identifier.
pub fn player_colors(players: &Vec<Player>) -> (colors: HashMap<PlayerID, PlayerColor>)
    ensures
        colors@ == colors_of(players@),
{
    let mut colors: HashMap<PlayerID, PlayerColor> = HashMap::new();
    let mut i: usize = 0;
    while i < players.len()
        invariant
            0 <= i <= players.len(),
            colors@ == colors_of(players@.take(i as int)),
        decreases players.len() - i,
    {
        assert(players@.take(i + 1).drop_last() =~= players@.take(i as int));
        colors.insert(players[i].id, players[i].color);
        i += 1;
    }
    assert(players@.take(players.len() as int) =~= players@);
    colors
}

} // verus!
