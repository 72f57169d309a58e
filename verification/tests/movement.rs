use labyrinth::board::Board;
use labyrinth::errors::{GenericError, LocationErrorKind, MoveErrorKind};
use labyrinth::location::Location;
use labyrinth::players::PlayerSet;
use labyrinth::tile::{PlacedTile, Player, Rotation, Tile};

fn plain(up: bool, right: bool, down: bool, left: bool) -> Tile {
    Tile { marking: None, path_up: up, path_right: right, path_down: down, path_left: left }
}

fn columns() -> Board {
    let line = PlacedTile { tile: plain(true, false, true, false), rotation: Rotation::Zero, players: PlayerSet::new() };
    Board { placed: vec![line; 49], spare: plain(true, true, false, false) }
}

fn stand(board: &mut Board, at: Location, player: Player) {
    board.placed[at.1 * 7 + at.0].players.insert(player);
}

#[test]
fn a_player_moves_along_a_path() {
    let mut board = columns();
    stand(&mut board, Location(2, 0), Player::Player1);
    assert_eq!(board.move_player(&Player::Player1, &Location(2, 6)), Ok(()));
    assert_eq!(board.players(), vec![(Location(2, 6), Player::Player1)]);
    assert!(board.check());
}

#[test]
fn a_player_may_stay_where_they_stand() {
    let mut board = columns();
    stand(&mut board, Location(4, 3), Player::Player2);
    let before = board.clone();
    assert_eq!(board.move_player(&Player::Player2, &Location(4, 3)), Ok(()));
    assert_eq!(board, before);
}

#[test]
fn a_move_without_a_path_is_refused() {
    let mut board = columns();
    stand(&mut board, Location(2, 0), Player::Player1);
    let before = board.clone();
    match board.move_player(&Player::Player1, &Location(3, 0)) {
        Err(GenericError::Move(error)) => {
            assert_eq!(error.kind, MoveErrorKind::NoPath);
            assert_eq!(error.to_string(), "No path to destination");
        }
        other => panic!("unexpected answer {:?}", other),
    }
    assert_eq!(board, before);
}

#[test]
fn a_move_of_a_player_who_is_not_on_the_board_is_refused() {
    let mut board = columns();
    stand(&mut board, Location(2, 0), Player::Player1);
    let before = board.clone();
    match board.move_player(&Player::Player3, &Location(2, 1)) {
        Err(GenericError::Move(error)) => {
            assert_eq!(error.kind, MoveErrorKind::TokenNotFound);
            assert_eq!(error.to_string(), "Player not found on board");
        }
        other => panic!("unexpected answer {:?}", other),
    }
    assert_eq!(board, before);
}

#[test]
fn a_move_off_the_board_is_refused() {
    let mut board = columns();
    stand(&mut board, Location(2, 0), Player::Player1);
    let before = board.clone();
    match board.move_player(&Player::Player1, &Location(2, 7)) {
        Err(GenericError::Location(error)) => {
            assert_eq!(error.kind, LocationErrorKind::InvalidLocation);
            assert_eq!(error.to_string(), "Invalid location (2, 7)");
        }
        other => panic!("unexpected answer {:?}", other),
    }
    assert_eq!(board, before);
}

#[test]
fn a_missing_player_is_reported_before_a_wrong_destination() {
    let mut board = columns();
    match board.move_player(&Player::Player4, &Location(9, 9)) {
        Err(GenericError::Move(error)) => assert_eq!(error.kind, MoveErrorKind::TokenNotFound),
        other => panic!("unexpected answer {:?}", other),
    }
}

#[test]
fn other_players_stay_where_they_are() {
    let mut board = columns();
    stand(&mut board, Location(2, 0), Player::Player1);
    stand(&mut board, Location(2, 0), Player::Player2);
    stand(&mut board, Location(2, 5), Player::Player3);
    assert_eq!(board.move_player(&Player::Player2, &Location(2, 5)), Ok(()));
    assert_eq!(
        board.players(),
        vec![
            (Location(2, 0), Player::Player1),
            (Location(2, 5), Player::Player2),
            (Location(2, 5), Player::Player3),
        ]
    );
}

#[test]
fn a_move_changes_no_tile() {
    let mut board = columns();
    stand(&mut board, Location(6, 6), Player::Player4);
    let before = board.clone();
    board.move_player(&Player::Player4, &Location(6, 1)).unwrap();
    assert_eq!(board.spare, before.spare);
    for i in 0..49 {
        assert_eq!(board.placed[i].tile, before.placed[i].tile);
        assert_eq!(board.placed[i].rotation, before.placed[i].rotation);
    }
}

#[test]
fn the_path_is_looked_for_on_the_board_as_it_is_now() {
    let mut board = columns();
    stand(&mut board, Location(1, 1), Player::Player1);
    board.spare = plain(false, false, false, false);
    // the closed spare enters above the player and pushes them down
    board.insert_spare(Location(1, 0), Rotation::Zero).unwrap();
    assert_eq!(board.players(), vec![(Location(1, 2), Player::Player1)]);
    assert!(board.move_player(&Player::Player1, &Location(1, 0)).is_err());
    assert_eq!(board.move_player(&Player::Player1, &Location(1, 1)), Ok(()));
    assert_eq!(board.move_player(&Player::Player1, &Location(1, 6)), Ok(()));
}
