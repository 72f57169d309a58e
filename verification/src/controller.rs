//! The rules of a turn: which request of which player is carried out, and
//! what the player gets to see of the game afterwards.

use vstd::prelude::*;
use crate::board::Board;
use crate::errors::{
    invalid_location_text, GenericError, GenericResult, LocationErrorKind, MoveErrorKind, TurnError,
    WrongPlayer,
};
use crate::insertion::{entry_point, insertion, no_entry_text, placement_text};
use crate::location::Location;
use crate::model::{next_in, Cards, Model, TurnPhase};
use crate::movement::{moved, no_path_text, not_found_text};
use crate::tile::{Item, PlacedTile, Player, Rotation, Tile};

verus! {

/// What everybody may see of the cards of a player: the cards that they have
/// found, and how many are still hidden.
#[derive(Debug, PartialEq, Eq, Clone)]
pub struct CardsSnapshot {
    pub found: Vec<Item>,
    pub num_hidden_cards: u32,
}

impl From<&Cards> for CardsSnapshot {
    /// What everybody may see of `cards`.
    fn from(cards: &Cards) -> (snapshot: CardsSnapshot)
        ensures
            snapshot.found@ == cards.found_cards@,
            cards.hidden_cards@.len() <= u32::MAX ==> snapshot.num_hidden_cards
                == cards.hidden_cards@.len(),
    {
        let found = cards.found_cards.clone();
        CardsSnapshot {
            found,
            num_hidden_cards: #[verifier::truncate]
            (cards.hidden_cards.len() as u32),
        }
    }
}

impl vstd::std_specs::convert::FromSpecImpl<&Cards> for CardsSnapshot {
    open spec fn obeys_from_spec() -> bool {
        false
    }

    open spec fn from_spec(cards: &Cards) -> CardsSnapshot {
        arbitrary()
    }
}

/// What a player gets to see of the game: the board and the spare tile, whose
/// turn it is and which card that player looks for, and of each player that
/// takes part what everybody may see of their cards.
#[derive(Debug, PartialEq, Eq, Clone)]
pub struct Snapshot {
    pub board: Vec<PlacedTile>,
    pub spare_tile: Tile,
    pub next_player: Player,
    pub looking_for: Option<Item>,
    pub players: Vec<Option<CardsSnapshot>>,
}

impl Snapshot {
    /// Whether the snapshot shows `model`.
    pub open spec fn shows(&self, model: &Model) -> bool {
        &&& self.board@ == model.board.placed@
        &&& self.spare_tile == model.board.spare
        &&& self.next_player == model.current_player
        &&& self.looking_for == model.cards_of(model.current_player).current_card
        &&& self.players@.len() == 4
        &&& forall|i: int|
            0 <= i < 4 ==> (#[trigger] self.players@[i] is Some <==> model.players@[i] is Some)
        &&& forall|i: int|
            0 <= i < 4 && model.players@[i] is Some ==> (#[trigger] self.players@[i])->Some_0.found@
                == model.players@[i]->Some_0.found_cards@ && (model.players@[i]->Some_0.hidden_cards@.len()
                <= u32::MAX ==> self.players@[i]->Some_0.num_hidden_cards
                == model.players@[i]->Some_0.hidden_cards@.len())
    }

    /// What the players get to see of `model`. It is the same for every
    /// `player`.
    pub fn for_player(model: &Model, player: Player) -> (snapshot: Snapshot)
        requires
            model.wf(),
        ensures
            snapshot.shows(model),
    {
        let board = model.board.placed.clone();
        let mut players: Vec<Option<CardsSnapshot>> = Vec::new();
        let mut i: usize = 0;
        while i < 4
            invariant
                i <= 4,
                model.players@.len() == 4,
                players@.len() == i,
                forall|k: int|
                    0 <= k < i ==> (#[trigger] players@[k] is Some <==> model.players@[k] is Some),
                forall|k: int|
                    0 <= k < i && model.players@[k] is Some ==> (#[trigger] players@[k])->Some_0.found@
                        == model.players@[k]->Some_0.found_cards@ && (model.players@[k]->Some_0.hidden_cards@.len()
                        <= u32::MAX ==> players@[k]->Some_0.num_hidden_cards
                        == model.players@[k]->Some_0.hidden_cards@.len()),
            decreases 4 - i,
        {
            let entry = match &model.players[i] {
                Some(cards) => Some(CardsSnapshot::from(cards)),
                None => None,
            };
            players.push(entry);
            i = i + 1;
        }
        Snapshot {
            board,
            spare_tile: model.board.spare,
            next_player: model.current_player,
            looking_for: model.current_player_cards().current_card,
            players,
        }
    }
}

/// What a player can ask for.
#[derive(Debug, PartialEq, Eq, Copy, Clone, Structural)]
pub enum Command {
    NoOp,
    MovePlayer(Player, Location),
    InsertTile(Location, Rotation),
}

/// A request: who sent it, and what it asks for.
#[derive(Debug, PartialEq, Eq, Copy, Clone, Structural)]
pub struct CommandRequest {
    pub sent_by: Player,
    pub command: Command,
}

/// The messages of the requests that the rules of the turn refuse.
pub open spec fn not_your_turn_text() -> Seq<char> {
    "It is not your turn"@
}

pub open spec fn not_time_to_move_text() -> Seq<char> {
    "It is not time to move, you must first insert the tile"@
}

pub open spec fn other_player_text() -> Seq<char> {
    "You cannot move another player"@
}

pub open spec fn not_time_to_insert_text() -> Seq<char> {
    "It is not time to insert the tile, you must move"@
}

/// Whether the player whose turn it is has reached the item of the card that
/// they look for, on the tile at `location` of `board`.
pub open spec fn finds(cards: Cards, board: &Board, location: Location) -> bool {
    cards.current_card is Some && cards.current_card == board.tile_at(location).tile.item()
}

/// What a move of `player` to `location` makes of the game `before`: the
/// token has moved; the player whose turn it was has drawn their next card if
/// they looked for the item of the tile at `location`, and has their cards as before
/// if not; the other players have their cards as before; and it is the turn
/// of the next player.
pub open spec fn turn_taken(before: Model, after: Model, player: Player, location: Location) -> bool {
    let mover = before.current_player;
    &&& after.board.placed@ == moved(
        before.board.placed@,
        player,
        before.board.token_place(player),
        location,
    )
    &&& after.board.spare == before.board.spare
    &&& Some(after.current_player) == next_in(before.participants(), mover)
    &&& forall|p: Player|
        p != mover && before.participants().has(p) ==> #[trigger] after.cards_of(p)
            == before.cards_of(p)
    &&& finds(before.cards_of(mover), &after.board, location) ==> drawn(
        before.cards_of(mover),
        after.cards_of(mover),
    )
    &&& !finds(before.cards_of(mover), &after.board, location) ==> after.cards_of(mover)
        == before.cards_of(mover)
}

/// Moves `player` to `location` and ends the turn: if the player whose turn
/// it is looks for the item of the tile at `location`, they have found it and
/// draw their next card, and the turn goes to the next player. A move that the
/// board refuses changes nothing.
pub fn move_player(player: Player, location: Location, model: &mut Model) -> (r: GenericResult<()>)
    requires
        old(model).wf(),
    ensures
        final(model).wf(),
        final(model).turn_phase == old(model).turn_phase,
        final(model).participants() == old(model).participants(),
        r is Ok <==> old(model).board.has_token(player) && old(model).board.connected(
            old(model).board.token_place(player),
            location,
        ),
        r is Err ==> *final(model) == *old(model),
        !old(model).board.has_token(player) ==> (r matches Err(GenericError::Move(e)) && e.kind
            == MoveErrorKind::TokenNotFound && e.text() == not_found_text()),
        old(model).board.has_token(player) && !location.on_board() ==> (r matches Err(
            GenericError::Location(e),
        ) && e.kind == LocationErrorKind::InvalidLocation && e.text() == invalid_location_text(
            location,
        )),
        old(model).board.has_token(player) && location.on_board() && !old(model).board.connected(
            old(model).board.token_place(player),
            location,
        ) ==> (r matches Err(GenericError::Move(e)) && e.kind == MoveErrorKind::NoPath && e.text()
            == no_path_text()),
        r is Ok ==> turn_taken(*old(model), *final(model), player, location),
{
    match model.board.move_player(&player, &location) {
        Ok(()) => {},
        Err(error) => {
            return Err(error);
        },
    }
    proof {
        crate::graph::lemma_connected_on_board(
            &old(model).board,
            old(model).board.token_place(player),
            location,
        );
    }
    let found = {
        let player_cards = model.current_player_cards();
        match (player_cards.current_card, model.board.item_at(&location)) {
            (Some(card), Ok(Some(item))) => card == item,
            _ => false,
        }
    };
    if found {
        let cards = model.current_player_cards_mut();
        cards.draw_next();
    }
    model.end_turn();
    Ok(())
}

/// What `draw_next` makes of the cards `before`.
pub open spec fn drawn(before: Cards, after: Cards) -> bool {
    &&& after.wf()
    &&& after.found() == (match before.current_card {
        Some(card) => before.found().insert(card),
        None => before.found(),
    })
    &&& before.hidden_cards@.len() > 0 ==> after.current_card == Some(before.hidden_cards@.last())
        && after.hidden_cards@ == before.hidden_cards@.drop_last()
    &&& before.hidden_cards@.len() == 0 ==> after.current_card is None && after.hidden_cards@
        == before.hidden_cards@
}

/// Whether the rules of the turn and the board let `request` be carried out
/// on `model`: it comes from the player whose turn it is, it fits the phase
/// of the turn, a move is that player's own and follows a path, and a tile is
/// inserted where and as it can enter.
pub open spec fn accepted(model: &Model, request: &CommandRequest) -> bool {
    &&& request.sent_by == model.current_player
    &&& match request.command {
        Command::NoOp => true,
        Command::MovePlayer(player, location) => {
            &&& model.turn_phase == TurnPhase::Move
            &&& player == model.current_player
            &&& model.board.has_token(player)
            &&& model.board.connected(model.board.token_place(player), location)
        },
        Command::InsertTile(location, rotation) => {
            &&& model.turn_phase == TurnPhase::InsertTile
            &&& entry_point(location)
            &&& model.board.may_enter(location, rotation)
        },
    }
}

/// What a request that was carried out has made of the game `before`.
pub open spec fn carried_out(before: Model, after: Model, request: &CommandRequest) -> bool {
    match request.command {
        Command::NoOp => after == before,
        Command::MovePlayer(player, location) => {
            &&& turn_taken(before, after, player, location)
            &&& after.turn_phase == before.turn_phase
        },
        Command::InsertTile(location, rotation) => {
            &&& insertion(before.board, after.board, location, rotation)
            &&& after.players == before.players
            &&& after.current_player == before.current_player
            &&& after.turn_phase == before.turn_phase
        },
    }
}

/// Whether `error` is the answer to a request that is refused on `model`: the
/// first of the reasons that holds, in the order in which they stand here.
pub open spec fn refusal(model: &Model, request: &CommandRequest, error: GenericError) -> bool {
    if request.sent_by != model.current_player {
        error matches GenericError::WrongPlayer(e) && e.text() == not_your_turn_text()
    } else {
        match request.command {
            Command::NoOp => false,
            Command::MovePlayer(player, location) => {
                if model.turn_phase != TurnPhase::Move {
                    error matches GenericError::Turn(e) && e.text() == not_time_to_move_text()
                } else if player != model.current_player {
                    error matches GenericError::WrongPlayer(e) && e.text() == other_player_text()
                } else if !model.board.has_token(player) {
                    error matches GenericError::Move(e) && e.kind == MoveErrorKind::TokenNotFound
                        && e.text() == not_found_text()
                } else if !location.on_board() {
                    error matches GenericError::Location(e) && e.kind
                        == LocationErrorKind::InvalidLocation && e.text() == invalid_location_text(
                        location,
                    )
                } else {
                    error matches GenericError::Move(e) && e.kind == MoveErrorKind::NoPath
                        && e.text() == no_path_text()
                }
            },
            Command::InsertTile(location, rotation) => {
                if model.turn_phase != TurnPhase::InsertTile {
                    error matches GenericError::Turn(e) && e.text() == not_time_to_insert_text()
                } else if !entry_point(location) {
                    error matches GenericError::Location(e) && e.kind
                        == LocationErrorKind::InvalidLocation && e.text() == no_entry_text(location)
                } else {
                    error matches GenericError::Location(e) && e.kind
                        == LocationErrorKind::InvalidPlacement && e.text() == placement_text()
                }
            },
        }
    }
}

/// Carries out `request` on `model`, if the rules of the turn and the board
/// allow it, and answers with what the players then get to see. A request
/// that is refused changes nothing, and the answer says why.
pub fn handle_request(model: &mut Model, request: &CommandRequest) -> (r: GenericResult<Snapshot>)
    requires
        old(model).wf(),
    ensures
        final(model).wf(),
        r is Ok <==> accepted(old(model), request),
        r is Ok ==> carried_out(*old(model), *final(model), request) && r->Ok_0.shows(final(model)),
        r is Err ==> *final(model) == *old(model) && refusal(old(model), request, r->Err_0),
{
    if request.sent_by != model.current_player {
        return Err(GenericError::WrongPlayer(WrongPlayer::new("It is not your turn")));
    }
    match request.command {
        Command::NoOp => {},
        Command::MovePlayer(player, location) => {
            if model.turn_phase != TurnPhase::Move {
                return Err(
                    GenericError::Turn(
                        TurnError::new("It is not time to move, you must first insert the tile"),
                    ),
                );
            }
            if player != model.current_player {
                return Err(
                    GenericError::WrongPlayer(WrongPlayer::new("You cannot move another player")),
                );
            }
            match move_player(player, location, model) {
                Ok(()) => {},
                Err(error) => {
                    return Err(error);
                },
            }
        },
        Command::InsertTile(location, rotation) => {
            if model.turn_phase != TurnPhase::InsertTile {
                return Err(
                    GenericError::Turn(
                        TurnError::new("It is not time to insert the tile, you must move"),
                    ),
                );
            }
            match model.board.insert_spare(location, rotation) {
                Ok(()) => {},
                Err(error) => {
                    return Err(GenericError::Location(error));
                },
            }
        },
    }
    Ok(Snapshot::for_player(model, request.sent_by))
}

} // verus!
