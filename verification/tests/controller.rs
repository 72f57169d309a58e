use labyrinth::board::Board;
use labyrinth::controller::{handle_request, move_player, CardsSnapshot, Command, CommandRequest, Snapshot};
use labyrinth::errors::{GenericError, LocationErrorKind, MoveErrorKind};
use labyrinth::location::Location;
use labyrinth::model::{Cards, Model, TurnPhase};
use labyrinth::players::PlayerSet;
use labyrinth::tile::{Item, PlacedTile, Player, Rotation, Tile, TileMarking};

fn plain(up: bool, right: bool, down: bool, left: bool) -> Tile {
    Tile { marking: None, path_up: up, path_right: right, path_down: down, path_left: left }
}

/// A game of players 1 and 3 on a board of vertical lines. Player 1 stands at
/// (1, 0) and looks for the crown, which lies at (1, 4); player 3 stands at
/// (5, 5). It is player 1's turn.
fn game(phase: TurnPhase) -> Model {
    let line = PlacedTile { tile: plain(true, false, true, false), rotation: Rotation::Zero, players: PlayerSet::new() };
    let mut board = Board { placed: vec![line; 49], spare: plain(false, true, false, true) };
    board.placed[4 * 7 + 1].tile.marking = Some(TileMarking::Item(Item::Crown));
    board.placed[2 * 7 + 1].tile.marking = Some(TileMarking::Item(Item::Bat));
    board.placed[1].players.insert(Player::Player1);
    board.placed[5 * 7 + 5].players.insert(Player::Player3);
    let first = Cards { current_card: Some(Item::Crown), hidden_cards: vec![Item::Owl, Item::Gem], found_cards: vec![] };
    let third = Cards { current_card: Some(Item::Bat), hidden_cards: vec![Item::Cat], found_cards: vec![Item::Ring] };
    Model {
        board,
        players: vec![Some(first), None, Some(third), None],
        current_player: Player::Player1,
        turn_phase: phase,
    }
}

fn request(sent_by: Player, command: Command) -> CommandRequest {
    CommandRequest { sent_by, command }
}

#[test]
fn a_snapshot_shows_the_game() {
    let model = game(TurnPhase::InsertTile);
    let snapshot = Snapshot::for_player(&model, Player::Player3);
    assert_eq!(snapshot.board, model.board.placed);
    assert_eq!(snapshot.spare_tile, model.board.spare);
    assert_eq!(snapshot.next_player, Player::Player1);
    assert_eq!(snapshot.looking_for, Some(Item::Crown));
    assert_eq!(
        snapshot.players,
        vec![
            Some(CardsSnapshot { found: vec![], num_hidden_cards: 2 }),
            None,
            Some(CardsSnapshot { found: vec![Item::Ring], num_hidden_cards: 1 }),
            None,
        ]
    );
    assert_eq!(Snapshot::for_player(&model, Player::Player1), snapshot);
}

#[test]
fn a_snapshot_of_cards_hides_the_hidden_ones() {
    let cards = Cards { current_card: Some(Item::Bat), hidden_cards: vec![Item::Cat, Item::Owl, Item::Gem], found_cards: vec![Item::Ring, Item::Keys] };
    let snapshot = CardsSnapshot::from(&cards);
    assert_eq!(snapshot.found, vec![Item::Ring, Item::Keys]);
    assert_eq!(snapshot.num_hidden_cards, 3);
}

#[test]
fn a_request_of_another_player_is_refused() {
    let mut model = game(TurnPhase::InsertTile);
    let before = model.clone();
    match handle_request(&mut model, &request(Player::Player3, Command::NoOp)) {
        Err(GenericError::WrongPlayer(error)) => assert_eq!(error.to_string(), "It is not your turn"),
        other => panic!("unexpected answer {:?}", other),
    }
    assert_eq!(model, before);
}

#[test]
fn doing_nothing_shows_the_game() {
    let mut model = game(TurnPhase::InsertTile);
    let before = model.clone();
    let snapshot = handle_request(&mut model, &request(Player::Player1, Command::NoOp)).unwrap();
    assert_eq!(model, before);
    assert_eq!(snapshot, Snapshot::for_player(&before, Player::Player1));
}

#[test]
fn a_move_before_the_insertion_is_refused() {
    let mut model = game(TurnPhase::InsertTile);
    let before = model.clone();
    let command = Command::MovePlayer(Player::Player1, Location(1, 4));
    match handle_request(&mut model, &request(Player::Player1, command)) {
        Err(GenericError::Turn(error)) => {
            assert_eq!(error.to_string(), "It is not time to move, you must first insert the tile")
        }
        other => panic!("unexpected answer {:?}", other),
    }
    assert_eq!(model, before);
}

#[test]
fn moving_another_player_is_refused() {
    let mut model = game(TurnPhase::Move);
    let before = model.clone();
    let command = Command::MovePlayer(Player::Player3, Location(5, 6));
    match handle_request(&mut model, &request(Player::Player1, command)) {
        Err(GenericError::WrongPlayer(error)) => {
            assert_eq!(error.to_string(), "You cannot move another player")
        }
        other => panic!("unexpected answer {:?}", other),
    }
    assert_eq!(model, before);
}

#[test]
fn an_insertion_when_it_is_time_to_move_is_refused() {
    let mut model = game(TurnPhase::Move);
    let before = model.clone();
    let command = Command::InsertTile(Location(1, 0), Rotation::Zero);
    match handle_request(&mut model, &request(Player::Player1, command)) {
        Err(GenericError::Turn(error)) => {
            assert_eq!(error.to_string(), "It is not time to insert the tile, you must move")
        }
        other => panic!("unexpected answer {:?}", other),
    }
    assert_eq!(model, before);
}

#[test]
fn an_insertion_is_carried_out() {
    let mut model = game(TurnPhase::InsertTile);
    let before = model.clone();
    let command = Command::InsertTile(Location(1, 0), Rotation::Zero);
    let snapshot = handle_request(&mut model, &request(Player::Player1, command)).unwrap();
    assert_eq!(model.board.placed[1].tile, before.board.spare);
    assert_eq!(model.board.placed[8], before.board.placed[1]);
    assert_eq!(model.board.spare, before.board.placed[43].tile);
    assert_eq!(model.players, before.players);
    assert_eq!(model.current_player, Player::Player1);
    assert_eq!(model.turn_phase, TurnPhase::InsertTile);
    assert_eq!(snapshot, Snapshot::for_player(&model, Player::Player1));
    assert_eq!(snapshot.board, model.board.placed);
}

#[test]
fn an_insertion_that_the_board_refuses_is_refused() {
    let mut model = game(TurnPhase::InsertTile);
    let before = model.clone();
    let command = Command::InsertTile(Location(2, 0), Rotation::Zero);
    match handle_request(&mut model, &request(Player::Player1, command)) {
        Err(GenericError::Location(error)) => {
            assert_eq!(error.kind, LocationErrorKind::InvalidLocation);
            assert_eq!(error.to_string(), "Cannot insert a tile at location (2, 0)");
        }
        other => panic!("unexpected answer {:?}", other),
    }
    // the spare is open to the left and right: it cannot enter at the left edge
    let command = Command::InsertTile(Location(0, 1), Rotation::Zero);
    match handle_request(&mut model, &request(Player::Player1, command)) {
        Err(GenericError::Location(error)) => assert_eq!(error.kind, LocationErrorKind::InvalidPlacement),
        other => panic!("unexpected answer {:?}", other),
    }
    assert_eq!(model, before);
}

#[test]
fn a_move_to_the_item_draws_the_next_card_and_ends_the_turn() {
    let mut model = game(TurnPhase::Move);
    let command = Command::MovePlayer(Player::Player1, Location(1, 4));
    let snapshot = handle_request(&mut model, &request(Player::Player1, command)).unwrap();
    assert_eq!(model.board.players(), vec![(Location(1, 4), Player::Player1), (Location(5, 5), Player::Player3)]);
    let cards = model.players[0].clone().unwrap();
    assert_eq!(cards.found_cards, vec![Item::Crown]);
    assert_eq!(cards.current_card, Some(Item::Gem));
    assert_eq!(cards.hidden_cards, vec![Item::Owl]);
    assert_eq!(model.current_player, Player::Player3);
    assert_eq!(model.turn_phase, TurnPhase::Move);
    assert_eq!(snapshot.next_player, Player::Player3);
    assert_eq!(snapshot.looking_for, Some(Item::Bat));
    assert_eq!(snapshot.players[0], Some(CardsSnapshot { found: vec![Item::Crown], num_hidden_cards: 1 }));
}

#[test]
fn a_move_to_another_tile_ends_the_turn_without_a_draw() {
    let mut model = game(TurnPhase::Move);
    let before = model.clone();
    // the bat is the card of the other player
    assert_eq!(move_player(Player::Player1, Location(1, 2), &mut model), Ok(()));
    assert_eq!(model.players, before.players);
    assert_eq!(model.current_player, Player::Player3);
    assert_eq!(model.board.players(), vec![(Location(1, 2), Player::Player1), (Location(5, 5), Player::Player3)]);
}

#[test]
fn a_move_that_the_board_refuses_keeps_the_turn() {
    let mut model = game(TurnPhase::Move);
    let before = model.clone();
    match move_player(Player::Player1, Location(2, 4), &mut model) {
        Err(GenericError::Move(error)) => assert_eq!(error.kind, MoveErrorKind::NoPath),
        other => panic!("unexpected answer {:?}", other),
    }
    match move_player(Player::Player2, Location(2, 4), &mut model) {
        Err(GenericError::Move(error)) => assert_eq!(error.kind, MoveErrorKind::TokenNotFound),
        other => panic!("unexpected answer {:?}", other),
    }
    match move_player(Player::Player1, Location(1, 7), &mut model) {
        Err(GenericError::Location(error)) => assert_eq!(error.kind, LocationErrorKind::InvalidLocation),
        other => panic!("unexpected answer {:?}", other),
    }
    assert_eq!(model, before);
    let command = Command::MovePlayer(Player::Player1, Location(2, 4));
    assert!(handle_request(&mut model, &request(Player::Player1, command)).is_err());
    assert_eq!(model, before);
}

#[test]
fn a_player_without_a_card_finds_nothing() {
    let mut model = game(TurnPhase::Move);
    model.players[0] = Some(Cards { current_card: None, hidden_cards: vec![], found_cards: vec![Item::Owl] });
    assert_eq!(move_player(Player::Player1, Location(1, 4), &mut model), Ok(()));
    assert_eq!(model.players[0].clone().unwrap().found_cards, vec![Item::Owl]);
    assert_eq!(model.current_player, Player::Player3);
}
