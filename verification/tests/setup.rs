use labyrinth::board::Board;
use labyrinth::location::Location;
use labyrinth::players::PlayerSet;
use labyrinth::setup::{
    fitting_rotations, fixed_tile_list, free_locations, free_tile_list, nth_fixed_tile, nth_free_tile,
    Shape,
};
use labyrinth::tile::{Item, PlacedTile, Player, Rotation, Tile, TileMarking};
use rand::rngs::StdRng;
use rand::SeedableRng;
use std::collections::HashMap;

fn all_players() -> PlayerSet {
    let mut players = PlayerSet::new();
    for player in [Player::Player1, Player::Player2, Player::Player3, Player::Player4] {
        players.insert(player);
    }
    players
}

fn pool() -> HashMap<Tile, usize> {
    let mut counts = HashMap::new();
    for (_, tile) in fixed_tile_list() {
        *counts.entry(tile).or_insert(0) += 1;
    }
    for tile in free_tile_list() {
        *counts.entry(tile).or_insert(0) += 1;
    }
    counts
}

fn tiles(board: &Board) -> HashMap<Tile, usize> {
    let mut counts = HashMap::new();
    for placed in board.placed.iter() {
        *counts.entry(placed.tile).or_insert(0) += 1;
    }
    *counts.entry(board.spare).or_insert(0) += 1;
    counts
}

#[test]
fn there_are_sixteen_fixed_and_thirty_four_free_tiles() {
    assert_eq!(fixed_tile_list().len(), 16);
    assert_eq!(free_tile_list().len(), 34);
    assert_eq!(pool().values().sum::<usize>(), 50);
}

#[test]
fn the_fixed_tiles_lie_on_the_even_places() {
    let fixed = fixed_tile_list();
    assert_eq!(fixed[0].0, Location(0, 0));
    assert_eq!(fixed[1].0, Location(2, 0));
    assert_eq!(fixed[3].0, Location(6, 0));
    assert_eq!(fixed[4].0, Location(0, 2));
    assert_eq!(fixed[10].0, Location(4, 4));
    assert_eq!(fixed[15].0, Location(6, 6));
    for (location, _) in fixed.iter() {
        assert!(location.is_fixed());
    }
}

#[test]
fn the_corners_are_the_starts_of_the_players() {
    let fixed = fixed_tile_list();
    assert_eq!(fixed[0].1, Shape::CornerRightDown.to_tile(Some(TileMarking::PlayerStart(Player::Player1))));
    assert_eq!(fixed[3].1, Shape::CornerLeftDown.to_tile(Some(TileMarking::PlayerStart(Player::Player2))));
    assert_eq!(fixed[12].1, Shape::CornerRightUp.to_tile(Some(TileMarking::PlayerStart(Player::Player3))));
    assert_eq!(fixed[15].1, Shape::CornerLeftUp.to_tile(Some(TileMarking::PlayerStart(Player::Player4))));
}

#[test]
fn some_fixed_and_free_tiles() {
    assert_eq!(
        nth_fixed_tile(1),
        Tile { marking: Some(TileMarking::Item(Item::Goblet)), path_up: false, path_right: true, path_down: true, path_left: true }
    );
    assert_eq!(
        nth_fixed_tile(9),
        Tile { marking: Some(TileMarking::Item(Item::Crown)), path_up: true, path_right: true, path_down: false, path_left: true }
    );
    assert_eq!(
        nth_free_tile(0),
        Tile { marking: Some(TileMarking::Item(Item::Spider)), path_up: false, path_right: true, path_down: true, path_left: false }
    );
    assert_eq!(
        nth_free_tile(7),
        Tile { marking: Some(TileMarking::Item(Item::Mouse)), path_up: false, path_right: false, path_down: true, path_left: true }
    );
    assert_eq!(nth_free_tile(12), Tile { marking: None, path_up: true, path_right: false, path_down: true, path_left: false });
    assert_eq!(nth_free_tile(23), nth_free_tile(12));
    assert_eq!(nth_free_tile(24), Tile { marking: None, path_up: true, path_right: true, path_down: false, path_left: false });
    assert_eq!(nth_free_tile(33), nth_free_tile(24));
}

#[test]
fn every_item_is_on_one_tile() {
    let mut seen = HashMap::new();
    for tile in fixed_tile_list().iter().map(|entry| entry.1).chain(free_tile_list()) {
        if let Some(TileMarking::Item(item)) = tile.marking {
            *seen.entry(item).or_insert(0) += 1;
        }
    }
    assert_eq!(seen.len(), 24);
    assert!(seen.values().all(|count| *count == 1));
}

#[test]
fn shapes_have_their_openings() {
    let line = Shape::LineHorizontal.to_tile(None);
    assert_eq!((line.path_up, line.path_right, line.path_down, line.path_left), (false, true, false, true));
    let tee = Shape::TeeLeft.to_tile(None);
    assert_eq!((tee.path_up, tee.path_right, tee.path_down, tee.path_left), (true, false, true, true));
    let tee = Shape::TeeRight.to_tile(None);
    assert_eq!((tee.path_up, tee.path_right, tee.path_down, tee.path_left), (true, true, true, false));
    let corner = Shape::CornerLeftUp.to_tile(None);
    assert_eq!((corner.path_up, corner.path_right, corner.path_down, corner.path_left), (true, false, false, true));
}

#[test]
fn there_are_thirty_three_free_places() {
    let free = free_locations();
    assert_eq!(free.len(), 33);
    assert_eq!(free[0], Location(1, 0));
    assert_eq!(free[1], Location(3, 0));
    assert_eq!(free[2], Location(5, 0));
    assert_eq!(free[3], Location(0, 1));
    assert_eq!(free[32], Location(5, 6));
    for location in free.iter() {
        assert!(location.is_on_board());
        assert!(!location.is_fixed());
    }
    for pair in free.windows(2) {
        assert!(pair[0].rank() < pair[1].rank());
    }
}

#[test]
fn rotations_that_fit_a_place() {
    let line = Shape::LineVertical.to_tile(None);
    assert_eq!(fitting_rotations(&Location(3, 0), &line), vec![Rotation::Clockwise90, Rotation::Clockwise270]);
    assert_eq!(fitting_rotations(&Location(0, 3), &line), vec![Rotation::Zero, Rotation::Clockwise180]);
    assert_eq!(
        fitting_rotations(&Location(3, 3), &line),
        vec![Rotation::Zero, Rotation::Clockwise90, Rotation::Clockwise180, Rotation::Clockwise270]
    );
    let tee = Shape::TeeUp.to_tile(None);
    assert_eq!(fitting_rotations(&Location(1, 6), &tee), vec![Rotation::Zero]);
    assert_eq!(fitting_rotations(&Location(1, 0), &tee), vec![Rotation::Clockwise180]);
    assert_eq!(fitting_rotations(&Location(0, 1), &tee), vec![Rotation::Clockwise90]);
    assert_eq!(fitting_rotations(&Location(6, 1), &tee), vec![Rotation::Clockwise270]);
    let cross = Tile { marking: None, path_up: true, path_right: true, path_down: true, path_left: true };
    assert_eq!(fitting_rotations(&Location(6, 1), &cross), Vec::<Rotation>::new());
    let corner = Shape::CornerRightUp.to_tile(None);
    assert_eq!(fitting_rotations(&Location(0, 0), &corner), vec![Rotation::Clockwise90]);
}

#[test]
fn a_random_rotation_is_one_of_the_four() {
    let mut rng = StdRng::seed_from_u64(11);
    let mut seen = [false; 4];
    for _ in 0..200 {
        match Rotation::random(&mut rng) {
            Rotation::Zero => seen[0] = true,
            Rotation::Clockwise90 => seen[1] = true,
            Rotation::Clockwise180 => seen[2] = true,
            Rotation::Clockwise270 => seen[3] = true,
        }
    }
    assert_eq!(seen, [true; 4]);
}

#[test]
fn a_new_board_holds_all_tiles() {
    for seed in 0..20 {
        let mut rng = StdRng::seed_from_u64(seed);
        let board = Board::new(&mut rng, &all_players());
        assert_eq!(board.placed.len(), 49);
        assert_eq!(tiles(&board), pool());
        assert!(board.check());
    }
}

#[test]
fn a_new_board_has_the_fixed_tiles_at_their_places() {
    let mut rng = StdRng::seed_from_u64(5);
    let board = Board::new(&mut rng, &PlayerSet::new());
    for (location, tile) in fixed_tile_list() {
        let placed = board.placed[location.rank()];
        assert_eq!(placed.tile, tile);
        assert_eq!(placed.rotation, Rotation::Zero);
        assert!(placed.players.is_empty());
    }
}

#[test]
fn a_new_board_opens_no_path_off_the_board() {
    for seed in 0..50 {
        let mut rng = StdRng::seed_from_u64(seed);
        let board = Board::new(&mut rng, &all_players());
        for location in Board::locations() {
            assert!(Board::tile_placement_ok(&location, &board.placed[location.rank()]));
        }
    }
}

#[test]
fn the_players_that_take_part_stand_on_their_starts() {
    let mut players = PlayerSet::new();
    players.insert(Player::Player1);
    players.insert(Player::Player4);
    let mut rng = StdRng::seed_from_u64(3);
    let board = Board::new(&mut rng, &players);
    assert_eq!(
        board.players(),
        vec![(Location(0, 0), Player::Player1), (Location(6, 6), Player::Player4)]
    );
    let mut rng = StdRng::seed_from_u64(3);
    let board = Board::new(&mut rng, &all_players());
    assert_eq!(
        board.players(),
        vec![
            (Location(0, 0), Player::Player1),
            (Location(6, 0), Player::Player2),
            (Location(0, 6), Player::Player3),
            (Location(6, 6), Player::Player4),
        ]
    );
    let mut rng = StdRng::seed_from_u64(3);
    let board = Board::new(&mut rng, &PlayerSet::new());
    assert!(board.players().is_empty());
}

#[test]
fn the_free_tiles_are_dealt_at_random() {
    let mut layouts = Vec::new();
    for seed in 0..8 {
        let mut rng = StdRng::seed_from_u64(seed);
        let board = Board::new(&mut rng, &all_players());
        let layout: Vec<Tile> = board.placed.iter().map(|placed| placed.tile).collect();
        layouts.push(layout);
    }
    let first = layouts[0].clone();
    assert!(layouts.iter().any(|layout| *layout != first));
    // and not in the order of the list
    let listed: Vec<Tile> = free_tile_list();
    let free_places = free_locations();
    let mut rng = StdRng::seed_from_u64(1);
    let board = Board::new(&mut rng, &all_players());
    let dealt: Vec<Tile> = free_places.iter().map(|place| board.placed[place.rank()].tile).collect();
    assert_ne!(dealt, listed[..33].to_vec());
}

#[test]
fn the_same_seed_gives_the_same_board() {
    let mut first = StdRng::seed_from_u64(99);
    let mut second = StdRng::seed_from_u64(99);
    assert_eq!(Board::new(&mut first, &all_players()), Board::new(&mut second, &all_players()));
}

#[test]
fn assemble_lays_each_tile_at_its_place() {
    let mut locations = free_locations();
    locations.reverse();
    let tiles: Vec<PlacedTile> = free_tile_list()[..33]
        .iter()
        .map(|tile| PlacedTile { tile: *tile, rotation: Rotation::Clockwise180, players: PlayerSet::new() })
        .collect();
    let spare = free_tile_list()[33];
    let mut players = PlayerSet::new();
    players.insert(Player::Player2);
    let board = Board::assemble(&players, &locations, &tiles, spare);
    assert_eq!(board.spare, spare);
    assert_eq!(board.placed.len(), 49);
    for k in 0..33 {
        assert_eq!(board.placed[locations[k].rank()], tiles[k]);
    }
    assert_eq!(board.placed[Location(5, 6).rank()], tiles[0]);
    assert_eq!(board.placed[Location(1, 0).rank()], tiles[32]);
    for (location, tile) in fixed_tile_list() {
        assert_eq!(board.placed[location.rank()].tile, tile);
        assert_eq!(board.placed[location.rank()].rotation, Rotation::Zero);
    }
    assert_eq!(board.players(), vec![(Location(6, 0), Player::Player2)]);
    assert_eq!(tiles_of(&board), pool());
}

fn tiles_of(board: &Board) -> HashMap<Tile, usize> {
    tiles(board)
}
