//! Sets of players: who takes part in a game, who stands on a tile.

use vstd::prelude::*;
use crate::tile::Player;

verus! {

/// A set of players, one flag for each of the four slots.
#[derive(Debug, Hash, PartialEq, Eq, Copy, Clone, Structural)]
pub struct PlayerSet {
    pub player1: bool,
    pub player2: bool,
    pub player3: bool,
    pub player4: bool,
}

impl Player {
    /// The player's slot, counted from zero.
    pub open spec fn slot(self) -> nat {
        match self {
            Player::Player1 => 0,
            Player::Player2 => 1,
            Player::Player3 => 2,
            Player::Player4 => 3,
        }
    }

    /// The player whose turn follows this player's when all four play.
    pub open spec fn successor(self) -> Player {
        match self {
            Player::Player1 => Player::Player2,
            Player::Player2 => Player::Player3,
            Player::Player3 => Player::Player4,
            Player::Player4 => Player::Player1,
        }
    }

    /// The player's slot, counted from zero.
    pub fn index(self) -> (i: usize)
        ensures
            i == self.slot(),
    {
        match self {
            Player::Player1 => 0,
            Player::Player2 => 1,
            Player::Player3 => 2,
            Player::Player4 => 3,
        }
    }

    /// The player whose turn follows this player's when all four play.
    pub fn next(self) -> (p: Player)
        ensures
            p == self.successor(),
    {
        match self {
            Player::Player1 => Player::Player2,
            Player::Player2 => Player::Player3,
            Player::Player3 => Player::Player4,
            Player::Player4 => Player::Player1,
        }
    }
}

impl View for PlayerSet {
    type V = Set<Player>;

    open spec fn view(&self) -> Set<Player> {
        Set::new(|p: Player| self.has(p))
    }
}

impl PlayerSet {
    /// Whether `player` is in the set.
    pub open spec fn has(self, player: Player) -> bool {
        match player {
            Player::Player1 => self.player1,
            Player::Player2 => self.player2,
            Player::Player3 => self.player3,
            Player::Player4 => self.player4,
        }
    }

    /// The number of players in the set.
    pub open spec fn count(self) -> nat {
        (if self.player1 { 1nat } else { 0 }) + (if self.player2 { 1nat } else { 0 })
            + (if self.player3 { 1nat } else { 0 }) + (if self.player4 { 1nat } else { 0 })
    }

    /// The set without any player.
    pub open spec fn none() -> PlayerSet {
        PlayerSet { player1: false, player2: false, player3: false, player4: false }
    }

    /// The set with `player` added.
    pub open spec fn with(self, player: Player) -> PlayerSet {
        match player {
            Player::Player1 => PlayerSet { player1: true, ..self },
            Player::Player2 => PlayerSet { player2: true, ..self },
            Player::Player3 => PlayerSet { player3: true, ..self },
            Player::Player4 => PlayerSet { player4: true, ..self },
        }
    }

    /// The set with `player` taken out.
    pub open spec fn without(self, player: Player) -> PlayerSet {
        match player {
            Player::Player1 => PlayerSet { player1: false, ..self },
            Player::Player2 => PlayerSet { player2: false, ..self },
            Player::Player3 => PlayerSet { player3: false, ..self },
            Player::Player4 => PlayerSet { player4: false, ..self },
        }
    }

    /// The view is a finite set with `count()` members, and adding and
    /// removing a player are the insertion and removal of sets.
    pub proof fn lemma_view(self, player: Player)
        ensures
            self@.finite(),
            self@.len() == self.count(),
            self@.contains(player) == self.has(player),
            self.with(player)@ == self@.insert(player),
            self.without(player)@ == self@.remove(player),
            PlayerSet::none()@ == Set::<Player>::empty(),
    {
        let e = Set::<Player>::empty();
        let s1 = if self.player1 { e.insert(Player::Player1) } else { e };
        let s2 = if self.player2 { s1.insert(Player::Player2) } else { s1 };
        let s3 = if self.player3 { s2.insert(Player::Player3) } else { s2 };
        let s4 = if self.player4 { s3.insert(Player::Player4) } else { s3 };
        assert(self@ =~= s4);
    }

    /// The empty set.
    pub fn new() -> (s: PlayerSet)
        ensures
            s == PlayerSet::none(),
            s@ == Set::<Player>::empty(),
    {
        proof {
            PlayerSet::none().lemma_view(Player::Player1);
        }
        PlayerSet { player1: false, player2: false, player3: false, player4: false }
    }

    /// Whether `player` is in the set.
    pub fn contains(&self, player: &Player) -> (r: bool)
        ensures
            r == self.has(*player),
            r == self@.contains(*player),
    {
        match player {
            Player::Player1 => self.player1,
            Player::Player2 => self.player2,
            Player::Player3 => self.player3,
            Player::Player4 => self.player4,
        }
    }

    /// Adds `player`; the result says whether the player was not yet in the set.
    pub fn insert(&mut self, player: Player) -> (added: bool)
        ensures
            *final(self) == old(self).with(player),
            final(self)@ == old(self)@.insert(player),
            added == !old(self).has(player),
    {
        proof {
            self.lemma_view(player);
        }
        let added = !self.contains(&player);
        match player {
            Player::Player1 => { self.player1 = true; },
            Player::Player2 => { self.player2 = true; },
            Player::Player3 => { self.player3 = true; },
            Player::Player4 => { self.player4 = true; },
        }
        added
    }

    /// Takes `player` out; the result says whether the player was in the set.
    pub fn remove(&mut self, player: &Player) -> (removed: bool)
        ensures
            *final(self) == old(self).without(*player),
            final(self)@ == old(self)@.remove(*player),
            removed == old(self).has(*player),
    {
        proof {
            self.lemma_view(*player);
        }
        let removed = self.contains(player);
        match player {
            Player::Player1 => { self.player1 = false; },
            Player::Player2 => { self.player2 = false; },
            Player::Player3 => { self.player3 = false; },
            Player::Player4 => { self.player4 = false; },
        }
        removed
    }

    /// The number of players in the set.
    pub fn len(&self) -> (n: usize)
        ensures
            n == self.count(),
            n == self@.len(),
            n <= 4,
    {
        proof {
            self.lemma_view(Player::Player1);
        }
        let mut n: usize = 0;
        if self.player1 {
            n = n + 1;
        }
        if self.player2 {
            n = n + 1;
        }
        if self.player3 {
            n = n + 1;
        }
        if self.player4 {
            n = n + 1;
        }
        n
    }

    /// Whether the set has no player.
    pub fn is_empty(&self) -> (r: bool)
        ensures
            r == (*self == PlayerSet::none()),
            r == (self.count() == 0),
    {
        !self.player1 && !self.player2 && !self.player3 && !self.player4
    }
}

} // verus!
