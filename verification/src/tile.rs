//! Tiles, their markings, their rotations and the tokens standing on them.

use vstd::prelude::*;
use crate::players::PlayerSet;

verus! {

/// The collectible items that a tile can show.
#[derive(Debug, Hash, PartialEq, Eq, Copy, Clone, Structural)]
pub enum Item {
    Chest,
    Gnome,
    Dragon,
    Unicorn,
    Phantom,
    Candle,
    Cat,
    Keys,
    Book,
    Spider,
    Crown,
    Sword,
    Goblet,
    Mouse,
    Ring,
    Potion,
    Beetle,
    Owl,
    Gem,
    Genie,
    Bat,
    Sack,
    Helmet,
    Lizard,
}

/// The four player slots.
#[derive(Debug, Hash, PartialEq, Eq, Copy, Clone, Structural)]
pub enum Player {
    Player1,
    Player2,
    Player3,
    Player4,
}

/// What a tile is marked with: an item to collect, or a player's start.
#[derive(Debug, Hash, PartialEq, Eq, Copy, Clone, Structural)]
pub enum TileMarking {
    Item(Item),
    PlayerStart(Player),
}

/// A tile: four openings and an optional marking.
#[derive(Debug, Hash, PartialEq, Eq, Copy, Clone, Structural)]
pub struct Tile {
    pub marking: Option<TileMarking>,
    pub path_up: bool,
    pub path_right: bool,
    pub path_down: bool,
    pub path_left: bool,
}

/// A clockwise rotation by a multiple of a quarter turn.
#[derive(Debug, Hash, PartialEq, Eq, Copy, Clone, Structural)]
pub enum Rotation {
    Zero,
    Clockwise90,
    Clockwise180,
    Clockwise270,
}

/// A tile as it lies on the board: turned by a rotation, with the players that
/// stand on it.
#[derive(Debug, Hash, PartialEq, Eq, Copy, Clone, Structural)]
pub struct PlacedTile {
    pub tile: Tile,
    pub rotation: Rotation,
    pub players: PlayerSet,
}

impl PlacedTile {
    /// The tile with the openings that it has as it lies: the tile's own
    /// openings, carried round by the rotation.
    pub open spec fn effective(self) -> Tile {
        self.tile.rotated(self.rotation)
    }

    /// The tile lying unrotated, with nobody on it.
    pub open spec fn unrotated(tile: Tile) -> PlacedTile {
        PlacedTile { tile, rotation: Rotation::Zero, players: PlayerSet::none() }
    }
}

impl From<&PlacedTile> for Tile {
    /// The tile with the openings that `placed_tile` has as it lies.
    fn from(placed_tile: &PlacedTile) -> (tile: Tile)
        ensures
            tile == placed_tile.effective(),
    {
        let (path_up, path_right, path_down, path_left) = match placed_tile.rotation {
            Rotation::Zero => (
                placed_tile.tile.path_up,
                placed_tile.tile.path_right,
                placed_tile.tile.path_down,
                placed_tile.tile.path_left,
            ),
            Rotation::Clockwise90 => (
                placed_tile.tile.path_left,
                placed_tile.tile.path_up,
                placed_tile.tile.path_right,
                placed_tile.tile.path_down,
            ),
            Rotation::Clockwise180 => (
                placed_tile.tile.path_down,
                placed_tile.tile.path_left,
                placed_tile.tile.path_up,
                placed_tile.tile.path_right,
            ),
            Rotation::Clockwise270 => (
                placed_tile.tile.path_right,
                placed_tile.tile.path_down,
                placed_tile.tile.path_left,
                placed_tile.tile.path_up,
            ),
        };
        Tile { marking: placed_tile.tile.marking, path_up, path_right, path_down, path_left }
    }
}

impl vstd::std_specs::convert::FromSpecImpl<&PlacedTile> for Tile {
    open spec fn obeys_from_spec() -> bool {
        true
    }

    open spec fn from_spec(placed_tile: &PlacedTile) -> Tile {
        placed_tile.effective()
    }
}

impl From<&Tile> for PlacedTile {
    /// The tile lying unrotated, with nobody on it.
    fn from(tile: &Tile) -> (placed_tile: PlacedTile)
        ensures
            placed_tile == PlacedTile::unrotated(*tile),
    {
        PlacedTile { tile: *tile, rotation: Rotation::Zero, players: PlayerSet::new() }
    }
}

impl vstd::std_specs::convert::FromSpecImpl<&Tile> for PlacedTile {
    open spec fn obeys_from_spec() -> bool {
        true
    }

    open spec fn from_spec(tile: &Tile) -> PlacedTile {
        PlacedTile::unrotated(*tile)
    }
}

impl Rotation {
    /// The number of quarter turns that the rotation stands for.
    pub open spec fn quarter_turns(self) -> nat {
        match self {
            Rotation::Zero => 0,
            Rotation::Clockwise90 => 1,
            Rotation::Clockwise180 => 2,
            Rotation::Clockwise270 => 3,
        }
    }

    /// The rotation of `n` quarter turns, counted modulo four.
    pub open spec fn of_quarter_turns(n: nat) -> Rotation {
        if n % 4 == 0 {
            Rotation::Zero
        } else if n % 4 == 1 {
            Rotation::Clockwise90
        } else if n % 4 == 2 {
            Rotation::Clockwise180
        } else {
            Rotation::Clockwise270
        }
    }

    /// This rotation followed by one more quarter turn clockwise.
    pub open spec fn turned(self) -> Rotation {
        Rotation::of_quarter_turns(self.quarter_turns() + 1)
    }

    /// This rotation followed by one more quarter turn clockwise.
    pub fn clockwise(self) -> (r: Rotation)
        ensures
            r == self.turned(),
    {
        match self {
            Rotation::Zero => Rotation::Clockwise90,
            Rotation::Clockwise90 => Rotation::Clockwise180,
            Rotation::Clockwise180 => Rotation::Clockwise270,
            Rotation::Clockwise270 => Rotation::Zero,
        }
    }

    /// The rotation of `n` quarter turns, counted modulo four.
    pub fn from_quarter_turns(n: usize) -> (r: Rotation)
        ensures
            r == Rotation::of_quarter_turns(n as nat),
    {
        let k: usize = n % 4;
        if k == 0 {
            Rotation::Zero
        } else if k == 1 {
            Rotation::Clockwise90
        } else if k == 2 {
            Rotation::Clockwise180
        } else {
            Rotation::Clockwise270
        }
    }
}

impl Tile {
    /// The tile turned by one quarter clockwise: what pointed left now points
    /// up, up points right, right points down and down points left.
    pub open spec fn turned(self) -> Tile {
        Tile {
            marking: self.marking,
            path_up: self.path_left,
            path_right: self.path_up,
            path_down: self.path_right,
            path_left: self.path_down,
        }
    }

    /// The tile as it lies on the board under `rotation`.
    pub open spec fn rotated(self, rotation: Rotation) -> Tile {
        match rotation {
            Rotation::Zero => self,
            Rotation::Clockwise90 => self.turned(),
            Rotation::Clockwise180 => self.turned().turned(),
            Rotation::Clockwise270 => self.turned().turned().turned(),
        }
    }

    /// The number of sides on which the tile is open.
    pub open spec fn openings(self) -> nat {
        (if self.path_up { 1nat } else { 0 }) + (if self.path_right { 1nat } else { 0 })
            + (if self.path_down { 1nat } else { 0 }) + (if self.path_left { 1nat } else { 0 })
    }

    /// An unmarked tile with the given openings.
    pub open spec fn plain(up: bool, right: bool, down: bool, left: bool) -> Tile {
        Tile { marking: None, path_up: up, path_right: right, path_down: down, path_left: left }
    }

    /// This tile's shape under another marking.
    pub open spec fn marked(self, marking: TileMarking) -> Tile {
        Tile { marking: Some(marking), ..self }
    }

    /// The item on the tile, if it shows one.
    pub open spec fn item(self) -> Option<Item> {
        match self.marking {
            Some(TileMarking::Item(item)) => Some(item),
            _ => None,
        }
    }
}

/// One more quarter turn of the rotation turns the tile as it lies by one
/// quarter, and four quarter turns bring every tile and every rotation back
/// to where they were.
pub proof fn lemma_quarter_turns_cycle(tile: Tile, rotation: Rotation)
    ensures
        tile.rotated(rotation.turned()) == tile.rotated(rotation).turned(),
        rotation.turned().turned().turned().turned() == rotation,
        tile.turned().turned().turned().turned() == tile,
        tile.rotated(rotation.turned().turned().turned().turned()) == tile.rotated(rotation),
        tile.rotated(rotation).openings() == tile.openings(),
        tile.rotated(rotation).marking == tile.marking,
{
}

} // verus!
