//! Moving a player's token: it may go wherever a path leads from its tile.

use vstd::prelude::*;
use crate::board::{tile_seq, Board};
use crate::errors::{
    invalid_location_text, GenericError, GenericResult, LocationErrorKind, MoveError, MoveErrorKind,
};
use crate::graph::BoardGraph;
use crate::insertion::lemma_token_total_update;
use crate::location::Location;
use crate::tile::{PlacedTile, Player};

verus! {

/// The message of a move of a player who stands nowhere on the board.
pub open spec fn not_found_text() -> Seq<char> {
    "Player not found on board"@
}

/// The message of a move to a place to which no path leads.
pub open spec fn no_path_text() -> Seq<char> {
    "No path to destination"@
}

/// The tile without `player` on it.
pub open spec fn left_by(tile: PlacedTile, player: Player) -> PlacedTile {
    PlacedTile { players: tile.players.without(player), ..tile }
}

/// The tile with `player` on it.
pub open spec fn reached_by(tile: PlacedTile, player: Player) -> PlacedTile {
    PlacedTile { players: tile.players.with(player), ..tile }
}

/// The tiles after `player` has left the tile at `from` and stepped on the
/// tile at `to`.
pub open spec fn moved(placed: Seq<PlacedTile>, player: Player, from: Location, to: Location) -> Seq<
    PlacedTile,
> {
    let left = placed.update(from.index(), left_by(placed[from.index()], player));
    left.update(to.index(), reached_by(left[to.index()], player))
}

/// The laws of the move. It keeps the board well formed, changes no tile and
/// takes no token away nor adds one: the player stands at the destination and
/// nowhere else, and every other player stands where they stood.
pub proof fn lemma_moved(before: Board, after: Board, player: Player, from: Location, to: Location)
    requires
        before.wf(),
        before.holds(from, player),
        to.on_board(),
        after.placed@ == moved(before.placed@, player, from, to),
        after.spare == before.spare,
    ensures
        after.wf(),
        after.tiles() == before.tiles(),
        after.token_count() == before.token_count(),
        forall|l: Location| after.holds(l, player) <==> l == to,
        forall|l: Location, p: Player| p != player ==> (after.holds(l, p) <==> before.holds(l, p)),
        forall|l: Location|
            l.on_board() ==> after.tile_at(l).tile == before.tile_at(l).tile && after.tile_at(
                l,
            ).rotation == before.tile_at(l).rotation,
        forall|a: Location, b: Location| after.linked(a, b) <==> before.linked(a, b),
{
    let placed = before.placed@;
    let left = placed.update(from.index(), left_by(placed[from.index()], player));
    from.lemma_index(0);
    to.lemma_index(0);
    assert forall|l: Location| after.holds(l, player) <==> l == to by {
        l.lemma_index(0);
        if before.holds(l, player) {
            assert(l == from);
        }
    }
    assert forall|l: Location, p: Player| p != player implies (after.holds(l, p) <==> before.holds(
        l,
        p,
    )) by {
        l.lemma_index(0);
    }
    assert forall|l: Location|
        l.on_board() implies after.tile_at(l).tile == before.tile_at(l).tile && after.tile_at(
        l,
    ).rotation == before.tile_at(l).rotation by {
        l.lemma_index(0);
    }
    assert forall|a: Location, b: Location| after.linked(a, b) <==> before.linked(a, b) by {
        a.lemma_index(0);
        b.lemma_index(0);
    }
    assert(tile_seq(after.placed@) =~= tile_seq(placed));
    lemma_token_total_update(placed, from.index(), left_by(placed[from.index()], player));
    lemma_token_total_update(left, to.index(), reached_by(left[to.index()], player));
    if to != from {
        assert(!before.holds(to, player));
    }
}

impl Board {
    /// Moves the token of `player` to `move_to`, if a path leads there from
    /// the tile on which it stands. A move that is refused leaves the board as
    /// it was: because the player stands nowhere on the board; else because
    /// `move_to` is no place of the board; else because no path leads there.
    pub fn move_player(&mut self, player: &Player, move_to: &Location) -> (r: GenericResult<()>)
        requires
            old(self).wf(),
        ensures
            final(self).wf(),
            final(self).tiles() == old(self).tiles(),
            final(self).token_count() == old(self).token_count(),
            r is Ok <==> old(self).has_token(*player) && old(self).connected(
                old(self).token_place(*player),
                *move_to,
            ),
            r is Ok ==> final(self).placed@ == moved(
                old(self).placed@,
                *player,
                old(self).token_place(*player),
                *move_to,
            ) && final(self).spare == old(self).spare,
            r is Ok ==> forall|l: Location| final(self).holds(l, *player) <==> l == *move_to,
            r is Err ==> *final(self) == *old(self),
            !old(self).has_token(*player) ==> (r matches Err(GenericError::Move(e)) && e.kind
                == MoveErrorKind::TokenNotFound && e.text() == not_found_text()),
            old(self).has_token(*player) && !move_to.on_board() ==> (r matches Err(
                GenericError::Location(e),
            ) && e.kind == LocationErrorKind::InvalidLocation && e.text() == invalid_location_text(
                *move_to,
            )),
            old(self).has_token(*player) && move_to.on_board() && !old(self).connected(
                old(self).token_place(*player),
                *move_to,
            ) ==> (r matches Err(GenericError::Move(e)) && e.kind == MoveErrorKind::NoPath
                && e.text() == no_path_text()),
    {
        let players = self.players();
        let mut found: Option<Location> = None;
        let mut i: usize = 0;
        while i < players.len() && found.is_none()
            invariant
                i <= players@.len(),
                found is None ==> forall|j: int| 0 <= j < i ==> (#[trigger] players@[j]).1 != *player,
                found matches Some(l) ==> players@.contains((l, *player)),
            decreases players@.len() - i + if found is None { 1int } else { 0int },
        {
            let (location, p) = players[i];
            if p == *player {
                found = Some(location);
            }
            i = i + 1;
        }
        let current_location = match found {
            Some(location) => location,
            None => {
                proof {
                    if self.has_token(*player) {
                        let l = self.token_place(*player);
                        assert(players@.contains((l, *player)));
                    }
                }
                return Err(GenericError::Move(MoveError::token_not_found("Player not found on board")));
            },
        };
        proof {
            if self.connected(current_location, *move_to) {
                crate::graph::lemma_connected_on_board(self, current_location, *move_to);
            }
        }
        let graph = BoardGraph::from(&*self);
        let connected = match graph.is_connected(&current_location, move_to) {
            Ok(connected) => connected,
            Err(error) => {
                return Err(GenericError::Location(error));
            },
        };
        if connected {
            let ghost before = *self;
            let from = current_location.rank();
            let mut left = self.placed[from];
            left.players.remove(player);
            self.placed.set(from, left);
            let to = move_to.rank();
            let mut reached = self.placed[to];
            reached.players.insert(*player);
            self.placed.set(to, reached);
            proof {
                lemma_moved(before, *self, *player, current_location, *move_to);
            }
            Ok(())
        } else {
            Err(GenericError::Move(MoveError::new("No path to destination")))
        }
    }
}

} // verus!
