use labyrinth::board::Board;
use labyrinth::emoji::Emoji;
use labyrinth::players::PlayerSet;
use labyrinth::render::{pad, push_repeated};
use labyrinth::tile::{Item, PlacedTile, Player, Rotation, Tile, TileMarking};

fn plain(up: bool, right: bool, down: bool, left: bool) -> Tile {
    Tile { marking: None, path_up: up, path_right: right, path_down: down, path_left: left }
}

const ITEMS: [Item; 24] = [
    Item::Chest, Item::Gnome, Item::Dragon, Item::Unicorn, Item::Phantom, Item::Candle,
    Item::Cat, Item::Keys, Item::Book, Item::Spider, Item::Crown, Item::Sword,
    Item::Goblet, Item::Mouse, Item::Ring, Item::Potion, Item::Beetle, Item::Owl,
    Item::Gem, Item::Genie, Item::Bat, Item::Sack, Item::Helmet, Item::Lizard,
];

#[test]
fn items_have_their_emoji() {
    assert_eq!(Item::Chest.emoji(), "📦");
    assert_eq!(Item::Phantom.emoji(), "👻");
    assert_eq!(Item::Owl.emoji(), "🦉");
    assert_eq!(Item::Lizard.emoji(), "🦎");
    let mut seen = std::collections::HashSet::new();
    for item in ITEMS.iter() {
        assert!(seen.insert(item.emoji().to_string()));
    }
}

#[test]
fn items_have_their_names() {
    assert_eq!(Item::Chest.name(), "Chest");
    assert_eq!(Item::Phantom.name(), "Ghost");
    assert_eq!(Item::Lizard.to_string(), "Lizard");
}

#[test]
fn players_have_their_emoji() {
    assert_eq!(Player::Player1.emoji(), "♠");
    assert_eq!(Player::Player2.emoji(), "♥");
    assert_eq!(Player::Player3.emoji(), "♦");
    assert_eq!(Player::Player4.emoji(), "♣");
    assert_eq!(Player::Player3.to_string(), "♦");
}

#[test]
fn markings_have_their_emoji() {
    assert_eq!(TileMarking::Item(Item::Crown).emoji(), "👑");
    assert_eq!(TileMarking::PlayerStart(Player::Player1).emoji(), "♤");
    assert_eq!(TileMarking::PlayerStart(Player::Player2).emoji(), "♡");
    assert_eq!(TileMarking::PlayerStart(Player::Player3).emoji(), "♢");
    assert_eq!(TileMarking::PlayerStart(Player::Player4).emoji(), "♧");
    assert_eq!(TileMarking::PlayerStart(Player::Player4).to_string(), "♧");
}

#[test]
fn the_width_of_an_emoji_is_counted_in_columns() {
    // a wide emoji is one character and two columns
    assert_eq!(Item::Chest.emoji().chars().count(), 1);
    assert_eq!(Item::Chest.emoji_width(), 2);
    assert_eq!(TileMarking::Item(Item::Chest).emoji_width(), 2);
    // a card suit is one column, and three bytes
    assert_eq!(Player::Player1.emoji().len(), 3);
    assert_eq!(Player::Player1.emoji_width(), 1);
}

#[test]
fn every_item_can_be_drawn_on_a_tile() {
    for item in ITEMS.iter() {
        assert!(item.emoji_width() <= 4);
        let mut tile = plain(true, true, false, false);
        tile.marking = Some(TileMarking::Item(*item));
        assert!(tile.render().is_some());
    }
}

#[test]
fn text_is_repeated() {
    let mut text = String::from("a");
    push_repeated(&mut text, "xy", 3);
    assert_eq!(text, "axyxyxy");
    push_repeated(&mut text, "z", 0);
    assert_eq!(text, "axyxyxy");
}

#[test]
fn an_emoji_is_filled_up_to_four_columns() {
    assert_eq!(pad("📦", 2), "📦░░");
    assert_eq!(pad("♤", 1), "♤░░░");
    assert_eq!(pad("abcd", 4), "abcd");
    assert_eq!(pad("", 0), "░░░░");
}

#[test]
fn a_closed_tile_is_walled_all_round() {
    let placed = PlacedTile { tile: plain(false, false, false, false), rotation: Rotation::Zero, players: PlayerSet::new() };
    assert_eq!(placed.render().unwrap(), "▒▒▒▒▒▒\n▒░░░░▒\n▒░░░░▒\n▒▒▒▒▒▒");
    assert_eq!(
        placed.lines().unwrap(),
        vec!["▒▒▒▒▒▒".to_string(), "▒░░░░▒".to_string(), "▒░░░░▒".to_string(), "▒▒▒▒▒▒".to_string()]
    );
}

#[test]
fn a_tile_is_drawn_with_its_marking_and_its_players() {
    let mut tile = plain(true, true, false, true);
    tile.marking = Some(TileMarking::Item(Item::Chest));
    let mut players = PlayerSet::new();
    players.insert(Player::Player1);
    players.insert(Player::Player3);
    let placed = PlacedTile { tile, rotation: Rotation::Zero, players };
    assert_eq!(placed.render().unwrap(), "▒░░░░▒\n░📦░░░\n░♠░♦░░\n▒▒▒▒▒▒");
}

#[test]
fn a_tile_is_drawn_as_it_lies() {
    // open upwards, turned a quarter: open to the right
    let placed = PlacedTile { tile: plain(true, false, false, false), rotation: Rotation::Clockwise90, players: PlayerSet::new() };
    assert_eq!(placed.render().unwrap(), "▒▒▒▒▒▒\n▒░░░░░\n▒░░░░░\n▒▒▒▒▒▒");
    // turned a half: open downwards
    let placed = PlacedTile { tile: plain(true, false, false, false), rotation: Rotation::Clockwise180, players: PlayerSet::new() };
    assert_eq!(placed.render().unwrap(), "▒▒▒▒▒▒\n▒░░░░▒\n▒░░░░▒\n▒░░░░▒");
}

#[test]
fn all_four_players_on_a_start() {
    let mut tile = plain(false, true, true, false);
    tile.marking = Some(TileMarking::PlayerStart(Player::Player1));
    let mut players = PlayerSet::new();
    for player in [Player::Player1, Player::Player2, Player::Player3, Player::Player4] {
        players.insert(player);
    }
    let placed = PlacedTile { tile, rotation: Rotation::Zero, players };
    assert_eq!(placed.render().unwrap(), "▒▒▒▒▒▒\n▒♤░░░░\n▒♠♥♦♣░\n▒░░░░▒");
}

#[test]
fn a_tile_alone_is_drawn_unrotated_and_empty() {
    let tile = plain(true, false, true, false);
    assert_eq!(tile.render().unwrap(), "▒░░░░▒\n▒░░░░▒\n▒░░░░▒\n▒░░░░▒");
}

#[test]
fn the_board_is_drawn_row_by_row() {
    let closed = PlacedTile { tile: plain(false, false, false, false), rotation: Rotation::Zero, players: PlayerSet::new() };
    let mut board = Board { placed: vec![closed; 49], spare: plain(true, false, true, false) };
    board.placed[0].tile.path_right = true;
    board.placed[48].players.insert(Player::Player4);
    let text = board.render().unwrap();
    let lines: Vec<&str> = text.split('\n').collect();
    assert_eq!(lines.len(), 7 * 4 + 6);
    let closed_top = vec!["▒▒▒▒▒▒"; 7].join(" ");
    let closed_middle = vec!["▒░░░░▒"; 7].join(" ");
    assert_eq!(lines[0], closed_top);
    assert_eq!(lines[1], format!("▒░░░░░ {}", vec!["▒░░░░▒"; 6].join(" ")));
    assert_eq!(lines[2], format!("▒░░░░░ {}", vec!["▒░░░░▒"; 6].join(" ")));
    assert_eq!(lines[3], closed_top);
    assert_eq!(lines[4], " ".repeat(48));
    assert_eq!(lines[5], closed_top);
    assert_eq!(lines[6], closed_middle);
    assert_eq!(lines[9], " ".repeat(48));
    assert_eq!(lines[32], format!("{} ▒░░░♣▒", vec!["▒░░░░▒"; 6].join(" ")));
    assert_eq!(lines[33], closed_top);
    for (i, line) in lines.iter().enumerate() {
        assert_eq!(line.chars().count(), 48, "line {}", i);
    }
}

#[test]
fn the_whole_text_of_a_board_of_closed_tiles() {
    let closed = PlacedTile { tile: plain(false, false, false, false), rotation: Rotation::Zero, players: PlayerSet::new() };
    let board = Board { placed: vec![closed; 49], spare: plain(true, false, true, false) };
    let top = vec!["▒▒▒▒▒▒"; 7].join(" ");
    let middle = vec!["▒░░░░▒"; 7].join(" ");
    let row = format!("{}\n{}\n{}\n{}", top, middle, middle, top);
    let blank = " ".repeat(48);
    let mut expected = String::new();
    for i in 0..7 {
        if i > 0 {
            expected.push('\n');
            expected.push_str(&blank);
            expected.push('\n');
        }
        expected.push_str(&row);
    }
    assert_eq!(board.render().unwrap(), expected);
}
