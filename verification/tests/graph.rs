use labyrinth::board::Board;
use labyrinth::errors::LocationErrorKind;
use labyrinth::graph::BoardGraph;
use labyrinth::location::Location;
use labyrinth::players::PlayerSet;
use labyrinth::tile::{PlacedTile, Rotation, Tile};

fn plain(up: bool, right: bool, down: bool, left: bool) -> Tile {
    Tile { marking: None, path_up: up, path_right: right, path_down: down, path_left: left }
}

fn lying(tile: Tile, rotation: Rotation) -> PlacedTile {
    PlacedTile { tile, rotation, players: PlayerSet::new() }
}

fn filled_with(tile: PlacedTile) -> Board {
    Board { placed: vec![tile; 49], spare: plain(true, false, true, false) }
}

fn put(board: &mut Board, at: Location, tile: PlacedTile) {
    board.placed[at.1 * 7 + at.0] = tile;
}

#[test]
fn columns_of_vertical_lines_are_connected_from_top_to_bottom() {
    let board = filled_with(lying(plain(true, false, true, false), Rotation::Zero));
    let graph = BoardGraph::from(&board);
    assert_eq!(graph.is_connected(&Location(2, 0), &Location(2, 6)).unwrap(), true);
    assert_eq!(graph.is_connected(&Location(2, 6), &Location(2, 0)).unwrap(), true);
    for x in 0..7 {
        for y in 0..7 {
            assert!(graph.is_connected(&Location(x, 0), &Location(x, y)).unwrap());
        }
    }
}

#[test]
fn columns_of_vertical_lines_are_not_connected_to_each_other() {
    let board = filled_with(lying(plain(true, false, true, false), Rotation::Zero));
    let graph = BoardGraph::from(&board);
    assert_eq!(graph.is_connected(&Location(2, 0), &Location(3, 0)).unwrap(), false);
    for x in 0..6 {
        for y in 0..7 {
            assert!(!graph.is_connected(&Location(x, y), &Location(x + 1, y)).unwrap());
        }
    }
}

#[test]
fn every_place_is_connected_to_itself() {
    let boards = [
        filled_with(lying(plain(false, false, false, false), Rotation::Zero)),
        filled_with(lying(plain(true, true, true, true), Rotation::Zero)),
        filled_with(lying(plain(true, true, false, false), Rotation::Clockwise90)),
    ];
    for board in boards.iter() {
        let graph = BoardGraph::from(board);
        for location in Board::locations() {
            assert_eq!(graph.is_connected(&location, &location).unwrap(), true);
        }
    }
}

#[test]
fn closed_tiles_are_connected_to_nothing_else() {
    let board = filled_with(lying(plain(false, false, false, false), Rotation::Zero));
    let graph = BoardGraph::from(&board);
    for a in Board::locations() {
        for b in Board::locations() {
            assert_eq!(graph.is_connected(&a, &b).unwrap(), a == b);
        }
    }
}

#[test]
fn crosses_connect_the_whole_board() {
    let board = filled_with(lying(plain(true, true, true, true), Rotation::Zero));
    let graph = BoardGraph::from(&board);
    for a in Board::locations() {
        assert!(graph.is_connected(&Location(0, 0), &a).unwrap());
        assert!(graph.is_connected(&a, &Location(6, 6)).unwrap());
    }
}

#[test]
fn rows_of_turned_lines_are_connected_from_left_to_right() {
    let board = filled_with(lying(plain(true, false, true, false), Rotation::Clockwise90));
    let graph = BoardGraph::from(&board);
    assert!(graph.is_connected(&Location(0, 4), &Location(6, 4)).unwrap());
    assert!(!graph.is_connected(&Location(0, 4), &Location(0, 5)).unwrap());
}

#[test]
fn a_path_round_a_corner() {
    let mut board = filled_with(lying(plain(false, false, false, false), Rotation::Zero));
    // (1,1) opens right, (2,1) opens left and down, (2,2) opens up
    put(&mut board, Location(1, 1), lying(plain(false, true, false, false), Rotation::Zero));
    put(&mut board, Location(2, 1), lying(plain(false, false, true, true), Rotation::Zero));
    put(&mut board, Location(2, 2), lying(plain(true, false, false, false), Rotation::Zero));
    let graph = BoardGraph::from(&board);
    assert!(graph.is_connected(&Location(1, 1), &Location(2, 2)).unwrap());
    assert!(graph.is_connected(&Location(2, 2), &Location(1, 1)).unwrap());
    assert!(!graph.is_connected(&Location(1, 1), &Location(3, 1)).unwrap());
    assert!(!graph.is_connected(&Location(1, 1), &Location(1, 2)).unwrap());
}

#[test]
fn an_opening_towards_a_wall_is_no_link() {
    let mut board = filled_with(lying(plain(false, false, false, false), Rotation::Zero));
    put(&mut board, Location(4, 4), lying(plain(true, true, true, true), Rotation::Zero));
    let graph = BoardGraph::from(&board);
    for location in [Location(4, 3), Location(4, 5), Location(3, 4), Location(5, 4)] {
        assert!(!graph.is_connected(&Location(4, 4), &location).unwrap());
    }
}

#[test]
fn two_places_have_the_same_label_only_if_they_are_connected() {
    let board = filled_with(lying(plain(true, false, true, false), Rotation::Zero));
    let graph = BoardGraph::from(&board);
    let a = graph.label(&Location(1, 0)).unwrap();
    assert_eq!(graph.label(&Location(1, 6)), Some(a));
    assert_ne!(graph.label(&Location(2, 6)), Some(a));
    assert_eq!(graph.label(&Location(7, 0)), None);
}

#[test]
fn a_place_off_the_board_has_no_label() {
    let board = filled_with(lying(plain(true, true, true, true), Rotation::Zero));
    let graph = BoardGraph::from(&board);
    let error = graph.is_connected(&Location(7, 1), &Location(1, 1)).unwrap_err();
    assert_eq!(error.kind, LocationErrorKind::InvalidLocation);
    assert_eq!(error.to_string(), "Invalid location (7, 1)");
    let error = graph.is_connected(&Location(1, 1), &Location(2, 8)).unwrap_err();
    assert_eq!(error.kind, LocationErrorKind::InvalidLocation);
    assert_eq!(error.to_string(), "Invalid location (2, 8)");
    let error = graph.is_connected(&Location(9, 9), &Location(8, 8)).unwrap_err();
    assert_eq!(error.to_string(), "Invalid location (9, 9)");
}

#[test]
fn the_empty_graph_knows_no_place() {
    let graph = BoardGraph::empty();
    let error = graph.is_connected(&Location(0, 0), &Location(0, 0)).unwrap_err();
    assert_eq!(error.kind, LocationErrorKind::InvalidLocation);
    assert_eq!(error.to_string(), "Invalid location (0, 0)");
    assert_eq!(graph.label(&Location(3, 3)), None);
}

#[test]
fn a_board_that_is_not_full_gets_no_labels() {
    let mut board = filled_with(lying(plain(true, true, true, true), Rotation::Zero));
    board.placed.pop();
    let graph = BoardGraph::from(&board);
    assert!(graph.is_connected(&Location(0, 0), &Location(0, 0)).is_err());
}

#[test]
fn the_labels_follow_the_board_after_an_insertion() {
    let mut board = filled_with(lying(plain(true, false, true, false), Rotation::Zero));
    board.spare = plain(false, false, false, false);
    board.insert_spare(Location(1, 0), Rotation::Zero).unwrap();
    let graph = BoardGraph::from(&board);
    assert!(!graph.is_connected(&Location(1, 0), &Location(1, 1)).unwrap());
    assert!(graph.is_connected(&Location(1, 1), &Location(1, 6)).unwrap());
}

#[test]
fn components_are_numbered_in_the_order_in_which_they_begin() {
    let board = filled_with(lying(plain(true, false, true, false), Rotation::Zero));
    let graph = BoardGraph::from(&board);
    for location in Board::locations() {
        assert_eq!(graph.label(&location), Some(location.0 as i32));
    }
    let board = filled_with(lying(plain(false, false, false, false), Rotation::Zero));
    let graph = BoardGraph::from(&board);
    for location in Board::locations() {
        assert_eq!(graph.label(&location), Some(location.rank() as i32));
    }
    let board = filled_with(lying(plain(true, true, true, true), Rotation::Zero));
    let graph = BoardGraph::from(&board);
    for location in Board::locations() {
        assert_eq!(graph.label(&location), Some(0));
    }
}

#[test]
fn a_component_that_begins_later_gets_a_higher_number() {
    let mut board = filled_with(lying(plain(false, false, false, false), Rotation::Zero));
    // (3, 0) and (3, 1) are joined; so are (0, 1) and (1, 1)
    put(&mut board, Location(3, 0), lying(plain(false, false, true, false), Rotation::Zero));
    put(&mut board, Location(3, 1), lying(plain(true, false, false, false), Rotation::Zero));
    put(&mut board, Location(0, 1), lying(plain(false, true, false, false), Rotation::Zero));
    put(&mut board, Location(1, 1), lying(plain(false, false, false, true), Rotation::Zero));
    let graph = BoardGraph::from(&board);
    assert_eq!(graph.label(&Location(3, 0)), Some(3));
    assert_eq!(graph.label(&Location(3, 1)), Some(3));
    assert_eq!(graph.label(&Location(6, 0)), Some(6));
    assert_eq!(graph.label(&Location(0, 1)), Some(7));
    assert_eq!(graph.label(&Location(1, 1)), Some(7));
    assert_eq!(graph.label(&Location(2, 1)), Some(8));
    // (3, 1) is counted with (3, 0)
    assert_eq!(graph.label(&Location(4, 1)), Some(9));
}
